//! Joins the texts of a list of items with a separator between them.

use vstd::prelude::*;
use vstd::string::StringExecFns;

verus! {

/// Texts that are to be written one after the other with a separator between them.
#[derive(Clone, Debug, PartialEq, Eq)]
pub struct FormatWith {
    pub pieces: Vec<String>,
    pub separator: String,
}

/// The first `upto` of `pieces`, with `separator` between each two.
pub open spec fn joined(pieces: Seq<String>, separator: Seq<char>, upto: int) -> Seq<char>
    decreases upto,
{
    if upto <= 0 {
        Seq::empty()
    } else if upto == 1 {
        pieces[0]@
    } else {
        joined(pieces, separator, upto - 1) + separator + pieces[upto - 1]@
    }
}

/// Turns every item into a text with `f`, for the texts to be joined with `separator`.
pub fn format_with<S, F: Fn(&S) -> String>(items: &Vec<S>, separator: &str, f: F) -> (r:
    FormatWith)
    requires
        forall|i: int| 0 <= i < items.len() ==> call_requires(f, (&#[trigger] items[i],)),
    ensures
        r.separator@ == separator@,
        r.pieces.len() == items.len(),
        forall|i: int|
            0 <= i < items.len() ==> call_ensures(f, (&items[i],), #[trigger] r.pieces[i]),
{
    let mut pieces: Vec<String> = Vec::new();
    let mut i: usize = 0;
    while i < items.len()
        invariant
            i <= items.len(),
            pieces.len() == i,
            forall|k: int| 0 <= k < items.len() ==> call_requires(f, (&#[trigger] items[k],)),
            forall|k: int| 0 <= k < i ==> call_ensures(f, (&items[k],), #[trigger] pieces[k]),
        decreases items.len() - i,
    {
        let piece = f(&items[i]);
        pieces.push(piece);
        i += 1;
    }
    FormatWith { pieces, separator: String::from_str(separator) }
}

impl FormatWith {
    /// What the pieces and the separators between them spell.
    pub open spec fn view(&self) -> Seq<char> {
        joined(self.pieces@, self.separator@, self.pieces.len() as int)
    }

    /// The pieces, one after the other, with the separator between each two.
    pub fn text(&self) -> (r: String)
        ensures
            r@ == self@,
    {
        let mut r = String::new();
        let mut i: usize = 0;
        while i < self.pieces.len()
            invariant
                i <= self.pieces.len(),
                r@ == joined(self.pieces@, self.separator@, i as int),
            decreases self.pieces.len() - i,
        {
            if i > 0 {
                r.append(self.separator.as_str());
            }
            r.append(self.pieces[i].as_str());
            i += 1;
        }
        r
    }
}

} // verus!
