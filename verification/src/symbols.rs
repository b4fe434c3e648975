//! The symbol picker's candidates: a character (or short string) and the
//! name it is found under.  The built-in table and any configured
//! additions arrive as plain (name, character) lists; where they come
//! from is outside the library.

use vstd::prelude::*;

use crate::rank::TextView;

verus! {

/// One pickable symbol.
#[derive(Clone)]
pub struct Symbol {
    /// The character the pick copies out.
    pub chr: String,
    /// The name it is searched by.
    pub name: String,
}

impl TextView for Symbol {
    open spec fn text_view(&self) -> Seq<char> {
        self.name@
    }

    fn text(&self) -> (r: &str) {
        self.name.as_str()
    }
}

/// Joins the built-in (name, character) table and the configured
/// additions, in order, into the picker's candidates.
pub fn build_symbols(base: Vec<(String, String)>, extra: Vec<(String, String)>) -> (r: Vec<
    Symbol,
>)
    ensures
        r@.len() == base@.len() + extra@.len(),
        forall|i: int|
            0 <= i < base@.len() ==> (#[trigger] r@[i]).name@ == base@[i].0@ && r@[i].chr@
                == base@[i].1@,
        forall|i: int|
            base@.len() <= i < r@.len() ==> (#[trigger] r@[i]).name@ == extra@[i - base@.len()].0@
                && r@[i].chr@ == extra@[i - base@.len()].1@,
{
    let ghost base_view = base@;
    let ghost extra_view = extra@;
    let mut out: Vec<Symbol> = Vec::new();
    let mut base = base;
    let mut extra = extra;
    while base.len() > 0
        invariant
            base_view.len() >= base@.len(),
            base@ == base_view.skip(base_view.len() - base@.len()),
            out@.len() == base_view.len() - base@.len(),
            forall|i: int|
                0 <= i < out@.len() ==> (#[trigger] out@[i]).name@ == base_view[i].0@
                    && out@[i].chr@ == base_view[i].1@,
        decreases base.len(),
    {
        let ghost k = base_view.len() - base@.len();
        let (name, chr) = base.remove(0);
        proof {
            assert(base_view.skip(k)[0] == base_view[k]);
            assert(base@ =~= base_view.skip(k + 1));
        }
        out.push(Symbol { chr, name });
    }
    while extra.len() > 0
        invariant
            extra_view.len() >= extra@.len(),
            extra@ == extra_view.skip(extra_view.len() - extra@.len()),
            out@.len() == base_view.len() + extra_view.len() - extra@.len(),
            forall|i: int|
                0 <= i < base_view.len() ==> (#[trigger] out@[i]).name@ == base_view[i].0@
                    && out@[i].chr@ == base_view[i].1@,
            forall|i: int|
                base_view.len() <= i < out@.len() ==> (#[trigger] out@[i]).name@ == extra_view[i
                    - base_view.len()].0@ && out@[i].chr@ == extra_view[i - base_view.len()].1@,
        decreases extra.len(),
    {
        let ghost k = extra_view.len() - extra@.len();
        let (name, chr) = extra.remove(0);
        proof {
            assert(extra_view.skip(k)[0] == extra_view[k]);
            assert(extra@ =~= extra_view.skip(k + 1));
        }
        out.push(Symbol { chr, name });
    }
    out
}

} // verus!
