use vstd::prelude::*;
use crate::item::Item;

verus! {

/// One operation on the stack of work items.
#[derive(Debug)]
pub enum Payload {
    /// Put a new item on top of the stack.
    Push(Item),
    /// Remove the top item, if any; harmless on an empty stack.
    Pop,
    /// Promote the item at the given position (0 = bottom) to the top.
    Focus(u64),
}

/// The mathematical form of a `Payload`: a pushed label is a character
/// sequence.
pub enum PayloadView {
    Push(Seq<char>),
    Pop,
    Focus(u64),
}

impl View for Payload {
    type V = PayloadView;

    open spec fn view(&self) -> PayloadView {
        match self {
            Payload::Push(item) => PayloadView::Push(item@),
            Payload::Pop => PayloadView::Pop,
            Payload::Focus(i) => PayloadView::Focus(*i),
        }
    }
}

impl Clone for Payload {
    fn clone(&self) -> (r: Payload)
        ensures
            r@ == self@,
    {
        match self {
            Payload::Push(item) => Payload::Push(item.clone()),
            Payload::Pop => Payload::Pop,
            Payload::Focus(i) => Payload::Focus(*i),
        }
    }
}

/// A record of the log: an operation and the wall-clock time it was issued,
/// as a fixed-offset timestamp string with second precision.
#[derive(Debug)]
pub struct Op {
    pub occurred_at: String,
    pub payload: Payload,
}

/// The mathematical form of a record.
pub struct OpView {
    pub at: Seq<char>,
    pub payload: PayloadView,
}

impl View for Op {
    type V = OpView;

    open spec fn view(&self) -> OpView {
        OpView { at: self.occurred_at@, payload: self.payload@ }
    }
}

impl Clone for Op {
    fn clone(&self) -> (r: Op)
        ensures
            r@ == self@,
    {
        Op { occurred_at: self.occurred_at.clone(), payload: self.payload.clone() }
    }
}

/// Why a replay faulted: `Focus(index)` was applied to a stack of `len` items
/// with `index >= len`.
#[derive(Debug)]
pub struct ReplayError {
    pub index: u64,
    pub len: usize,
}

/// The mathematical form of a replay fault.
pub struct ReplayFault {
    pub index: u64,
    pub len: nat,
}

impl View for ReplayError {
    type V = ReplayFault;

    open spec fn view(&self) -> ReplayFault {
        ReplayFault { index: self.index, len: self.len as nat }
    }
}

/// The labels of an item sequence, in order (bottom of the stack first).
pub open spec fn labels(items: Seq<Item>) -> Seq<Seq<char>> {
    items.map_values(|it: Item| it@)
}

/// One fold step of the projector: how a single operation transforms the
/// stack. Popping an empty stack is a defined no-op; focusing out of range is
/// the one fault.
pub open spec fn apply_payload(p: PayloadView, items: Seq<Seq<char>>) -> Result<
    Seq<Seq<char>>,
    ReplayFault,
> {
    match p {
        PayloadView::Push(t) => Ok(items.push(t)),
        PayloadView::Pop => Ok(
            if items.len() == 0 {
                items
            } else {
                items.drop_last()
            },
        ),
        PayloadView::Focus(i) => if (i as nat) < items.len() {
            Ok(items.remove(i as int).push(items[i as int]))
        } else {
            Err(ReplayFault { index: i, len: items.len() })
        },
    }
}

/// Replays `ops` left to right, starting from the stack `items`.
pub open spec fn replay_from(items: Seq<Seq<char>>, ops: Seq<PayloadView>) -> Result<
    Seq<Seq<char>>,
    ReplayFault,
>
    decreases ops.len(),
{
    if ops.len() == 0 {
        Ok(items)
    } else {
        match apply_payload(ops[0], items) {
            Ok(next) => replay_from(next, ops.drop_first()),
            Err(f) => Err(f),
        }
    }
}

/// The stack a whole log projects to: the fold of all operations over the
/// empty stack.
pub open spec fn replay(ops: Seq<PayloadView>) -> Result<Seq<Seq<char>>, ReplayFault> {
    replay_from(Seq::empty(), ops)
}

/// The operations of a record sequence, in order; replay never reads the
/// timestamps.
pub open spec fn payloads(ops: Seq<OpView>) -> Seq<PayloadView> {
    ops.map_values(|o: OpView| o.payload)
}

impl Payload {
    /// Applies this operation to the given stack (bottom of the stack first).
    pub fn apply(self, items: Vec<Item>) -> (r: Result<Vec<Item>, ReplayError>)
        ensures
            r is Ok <==> apply_payload(self@, labels(items@)) is Ok,
            r is Ok ==> labels(r->Ok_0@) == apply_payload(self@, labels(items@))->Ok_0,
            r is Err ==> r->Err_0@ == apply_payload(self@, labels(items@))->Err_0,
    {
        let ghost before = labels(items@);
        let mut items = items;
        match self {
            Payload::Push(item) => {
                let ghost t = item@;
                items.push(item);
                proof {
                    assert(labels(items@) =~= before.push(t));
                }
                Ok(items)
            },
            Payload::Pop => {
                if items.len() > 0 {
                    items.pop();
                    proof {
                        assert(labels(items@) =~= before.drop_last());
                    }
                } else {
                    proof {
                        assert(labels(items@) =~= before);
                    }
                }
                Ok(items)
            },
            Payload::Focus(index) => {
                if index < items.len() as u64 {
                    let i = index as usize;
                    let it = items.remove(i);
                    proof {
                        assert(it@ == before[index as int]);
                        assert(labels(items@) =~= before.remove(index as int));
                    }
                    items.push(it);
                    proof {
                        assert(labels(items@) =~= before.remove(index as int).push(
                            before[index as int],
                        ));
                    }
                    Ok(items)
                } else {
                    Err(ReplayError { index, len: items.len() })
                }
            },
        }
    }
}

impl Op {
    /// Applies this record's operation; the timestamp plays no part.
    pub fn apply(self, items: Vec<Item>) -> (r: Result<Vec<Item>, ReplayError>)
        ensures
            r is Ok <==> apply_payload(self@.payload, labels(items@)) is Ok,
            r is Ok ==> labels(r->Ok_0@) == apply_payload(self@.payload, labels(items@))->Ok_0,
            r is Err ==> r->Err_0@ == apply_payload(self@.payload, labels(items@))->Err_0,
    {
        self.payload.apply(items)
    }
}

} // verus!
