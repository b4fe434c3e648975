//! The window switcher's candidates: windows as the compositor lists
//! them, reduced to the plain fields the plugin reads.  A window with
//! neither class nor title is invisible to the switcher; the rest are
//! numbered in order and searched by "class: title".  Asking the
//! compositor for its windows, and telling it to focus one, is IPC and
//! stays outside the library.

use vstd::prelude::*;
use vstd::string::StringExecFns;

use crate::rank::TextView;

verus! {

/// One switchable window.
#[derive(Clone)]
pub struct WindowEntry {
    /// Position among the kept windows; the identifier the UI sees.
    pub id: u64,
    /// The window's class.
    pub class: String,
    /// The window's title.
    pub title: String,
    /// The searched text: the class, a colon and a space, the title.
    pub search: String,
    /// The compositor's address for the window, used to focus it.
    pub address: String,
}

impl TextView for WindowEntry {
    open spec fn text_view(&self) -> Seq<char> {
        self.search@
    }

    fn text(&self) -> (r: &str) {
        self.search.as_str()
    }
}

/// The views of listed windows: class, title, address.
pub open spec fn triple_views(s: Seq<(String, String, String)>) -> Seq<
    (Seq<char>, Seq<char>, Seq<char>),
> {
    s.map_values(|t: (String, String, String)| (t.0@, t.1@, t.2@))
}

/// The windows the switcher keeps: those with a class or a title.
pub open spec fn visible_windows(s: Seq<(Seq<char>, Seq<char>, Seq<char>)>) -> Seq<
    (Seq<char>, Seq<char>, Seq<char>),
> {
    s.filter(|t: (Seq<char>, Seq<char>, Seq<char>)| t.0.len() > 0 || t.1.len() > 0)
}

/// The searched text of one window.
pub fn window_search_text(class: &String, title: &String) -> (r: String)
    ensures
        r@ == class@ + ": "@ + title@,
{
    class.clone().concat(": ").concat(title.as_str())
}

/// Turns listed windows — class, title, address — into the switcher's
/// candidates: windows with neither class nor title are dropped, the rest
/// numbered in order, each searched by "class: title".
pub fn build_window_entries(input: Vec<(String, String, String)>) -> (r: Vec<WindowEntry>)
    ensures
        r@.len() == visible_windows(triple_views(input@)).len(),
        forall|i: int|
            0 <= i < r@.len() ==> {
                let v = visible_windows(triple_views(input@))[i];
                &&& (#[trigger] r@[i]).id == i
                &&& r@[i].class@ == v.0
                &&& r@[i].title@ == v.1
                &&& r@[i].address@ == v.2
                &&& r@[i].search@ == v.0 + ": "@ + v.1
            },
{
    let ghost orig = triple_views(input@);
    let ghost pred = |t: (Seq<char>, Seq<char>, Seq<char>)| t.0.len() > 0 || t.1.len() > 0;
    let mut input = input;
    let mut out: Vec<WindowEntry> = Vec::new();
    proof {
        reveal_with_fuel(Seq::filter, 3);
        assert(out@.map_values(|w: WindowEntry| (w.class@, w.title@, w.address@)) =~= Seq::<
            (Seq<char>, Seq<char>, Seq<char>),
        >::empty());
        assert(orig.filter(pred) =~= out@.map_values(
            |w: WindowEntry| (w.class@, w.title@, w.address@),
        ) + triple_views(input@).filter(pred));
    }
    while input.len() > 0
        invariant
            orig.filter(pred) == out@.map_values(
                |w: WindowEntry| (w.class@, w.title@, w.address@),
            ) + triple_views(input@).filter(pred),
            pred == (|t: (Seq<char>, Seq<char>, Seq<char>)| t.0.len() > 0 || t.1.len() > 0),
            forall|i: int|
                0 <= i < out@.len() ==> {
                    &&& (#[trigger] out@[i]).id == i
                    &&& out@[i].search@ == out@[i].class@ + ": "@ + out@[i].title@
                },
        decreases input.len(),
    {
        let ghost before = triple_views(input@);
        let (class, title, address) = input.remove(0);
        proof {
            reveal_with_fuel(Seq::filter, 3);
            broadcast use vstd::prelude::Seq::filter_distributes_over_add;

            assert(before =~= seq![(class@, title@, address@)] + triple_views(input@));
            assert(seq![(class@, title@, address@)].drop_last() =~= Seq::<
                (Seq<char>, Seq<char>, Seq<char>),
            >::empty());
            assert(seq![(class@, title@, address@)].filter(pred) =~= if pred(
                (class@, title@, address@),
            ) {
                seq![(class@, title@, address@)]
            } else {
                Seq::<(Seq<char>, Seq<char>, Seq<char>)>::empty()
            });
        }
        if class.unicode_len() > 0 || title.unicode_len() > 0 {
            let search = window_search_text(&class, &title);
            let id = out.len() as u64;
            let ghost out_before = out@;
            out.push(WindowEntry { id, class, title, address, search });
            proof {
                assert(out@.map_values(|w: WindowEntry| (w.class@, w.title@, w.address@))
                    =~= out_before.map_values(|w: WindowEntry| (w.class@, w.title@, w.address@))
                    + seq![(out@[out_before.len() as int].class@, out@[out_before.len() as int].title@, out@[out_before.len() as int].address@)]);
            }
        }
    }
    proof {
        assert(triple_views(input@).filter(pred) =~= Seq::<
            (Seq<char>, Seq<char>, Seq<char>),
        >::empty());
        assert(orig.filter(pred) =~= out@.map_values(
            |w: WindowEntry| (w.class@, w.title@, w.address@),
        ));
        assert forall|i: int| 0 <= i < out@.len() implies {
            let v = visible_windows(orig)[i];
            &&& (#[trigger] out@[i]).id == i
            &&& out@[i].class@ == v.0
            &&& out@[i].title@ == v.1
            &&& out@[i].address@ == v.2
            &&& out@[i].search@ == v.0 + ": "@ + v.1
        } by {
            assert(visible_windows(orig)[i] == out@.map_values(
                |w: WindowEntry| (w.class@, w.title@, w.address@),
            )[i]);
        }
    }
    out
}

/// The address of the first window carrying the selected identifier.
pub fn find_address(windows: &Vec<WindowEntry>, id: u64) -> (r: Option<String>)
    ensures
        r matches Some(address) ==> exists|i: int|
            {
                &&& 0 <= i < windows@.len()
                &&& (#[trigger] windows@[i]).id == id
                &&& windows@[i].address@ == address@
                &&& forall|j: int| 0 <= j < i ==> (#[trigger] windows@[j]).id != id
            },
        r is None ==> forall|i: int| 0 <= i < windows@.len() ==> (#[trigger] windows@[i]).id
            != id,
{
    let mut i: usize = 0;
    while i < windows.len()
        invariant
            i <= windows@.len(),
            forall|j: int| 0 <= j < i ==> (#[trigger] windows@[j]).id != id,
        decreases windows@.len() - i,
    {
        if windows[i].id == id {
            let address = windows[i].address.clone();
            assert(windows@[i as int].id == id && windows@[i as int].address@ == address@);
            return Some(address);
        }
        i = i + 1;
    }
    None
}

} // verus!
