use vstd::prelude::*;
use vstd::string::StringExecFns;
use crate::digits::{dec_digits, u64_to_dec};
use crate::item::Item;
use crate::op::labels;

verus! {

/// One display line: the item's position counted from the bottom, a colon and
/// a space, the label, and a line break.
pub open spec fn render_line(i: nat, label: Seq<char>) -> Seq<char> {
    dec_digits(i) + ": "@ + label + "\n"@
}

/// The display lines for a stack, top of the stack (highest position) first.
pub open spec fn render_lines(items: Seq<Seq<char>>) -> Seq<char>
    decreases items.len(),
{
    if items.len() == 0 {
        Seq::empty()
    } else {
        render_line((items.len() - 1) as nat, items.last()) + render_lines(items.drop_last())
    }
}

/// The full display: the literal "No WIP" for an empty stack, else one line
/// per item, top first.
pub open spec fn render_stack(items: Seq<Seq<char>>) -> Seq<char> {
    if items.len() == 0 {
        "No WIP"@
    } else {
        render_lines(items)
    }
}

proof fn lemma_render_take_step(ls: Seq<Seq<char>>, i: int)
    requires
        0 <= i < ls.len(),
    ensures
        render_lines(ls.take(i + 1)) == render_line(i as nat, ls[i]) + render_lines(ls.take(i)),
{
    assert(ls.take(i + 1).drop_last() =~= ls.take(i));
    assert(ls.take(i + 1).last() == ls[i]);
}

/// Renders the stack display for `items`.
pub fn show_items(items: &Vec<Item>) -> (r: String)
    ensures
        r@ == render_stack(labels(items@)),
{
    let ghost ls = labels(items@);
    if items.len() == 0 {
        proof {
            assert(ls.len() == 0);
        }
        String::from_str("No WIP")
    } else {
        let mut buf = String::new();
        let mut i: usize = items.len();
        proof {
            assert(ls.take(i as int) =~= ls);
            assert(buf@ + render_lines(ls) =~= render_lines(ls));
        }
        while i > 0
            invariant
                i <= items.len(),
                ls == labels(items@),
                ls.len() == items.len(),
                buf@ + render_lines(ls.take(i as int)) == render_lines(ls),
            decreases i,
        {
            i = i - 1;
            let ghost buf0 = buf@;
            let num = u64_to_dec(i as u64);
            buf.append(num.as_str());
            buf.append(": ");
            let lbl = items[i].to_string();
            buf.append(lbl.as_str());
            buf.append("\n");
            proof {
                assert(ls[i as int] == items@[i as int]@);
                assert(buf@ =~= buf0 + render_line(i as nat, ls[i as int]));
                lemma_render_take_step(ls, i as int);
                assert(buf@ + render_lines(ls.take(i as int)) =~= buf0 + render_lines(
                    ls.take(i as int + 1),
                ));
            }
        }
        proof {
            assert(ls.take(0) =~= Seq::<Seq<char>>::empty());
            assert(render_lines(ls.take(0)) =~= Seq::<char>::empty());
            assert(buf@ =~= buf@ + render_lines(ls.take(0)));
        }
        buf
    }
}

} // verus!
