use vstd::prelude::*;

verus! {

/// A single work-in-progress label. An `Item` is immutable once created and
/// its identity is the text it carries.
#[derive(Debug)]
pub struct Item {
    text: String,
}

impl View for Item {
    type V = Seq<char>;

    closed spec fn view(&self) -> Seq<char> {
        self.text@
    }
}

impl Item {
    /// Wraps a text label as an `Item`.
    pub fn new(text: String) -> (r: Item)
        ensures
            r@ == text@,
    {
        Item { text }
    }

    /// True when the label is the empty string.
    pub fn is_empty(&self) -> (r: bool)
        ensures
            r == (self@.len() == 0),
    {
        self.text.as_str().is_empty()
    }

    /// The label as a plain string.
    pub fn to_string(&self) -> (r: String)
        ensures
            r@ == self@,
    {
        self.text.clone()
    }
}

impl Clone for Item {
    fn clone(&self) -> (r: Item)
        ensures
            r@ == self@,
    {
        Item { text: self.text.clone() }
    }
}

} // verus!
