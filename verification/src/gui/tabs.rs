//! The strip of terminal tabs: which tabs exist and which one is active,
//! kept through opening and closing tabs.

use vstd::prelude::*;
use crate::gui::theme::Rgb;

verus! {

/// What the tab bar asks the application to do.
pub enum TabAction {
    NoAction,
    Select(usize),
    New,
    Close(usize),
    CloseOthers(usize),
    CloseRight(usize),
    SetColor(usize, Option<Rgb>),
    ToggleSyncInput,
    ToggleFocusMode,
    OpenTabSearch,
}

/// The open tabs, in order, and the index of the active one.
pub struct TabStrip<T> {
    pub tabs: Vec<T>,
    pub active: usize,
}

impl<T> TabStrip<T> {
    /// There is always at least one tab.
    pub open spec fn wf(&self) -> bool {
        self.tabs@.len() > 0
    }

    /// A strip holding one tab, which is active.
    pub fn new(first: T) -> (s: Self)
        ensures
            s.wf(),
            s.tabs@ == seq![first],
            s.active == 0,
    {
        let mut tabs: Vec<T> = Vec::new();
        tabs.push(first);
        assert(tabs@ =~= seq![first]);
        TabStrip { tabs, active: 0 }
    }

    /// Open a tab at the end and make it active.
    pub fn new_tab(&mut self, tab: T)
        ensures
            final(self).wf(),
            final(self).tabs@ == old(self).tabs@.push(tab),
            final(self).active == old(self).tabs@.len(),
    {
        self.tabs.push(tab);
        self.active = self.tabs.len() - 1;
    }

    /// Make tab `i` active.
    pub fn select(&mut self, i: usize)
        ensures
            final(self).tabs@ == old(self).tabs@,
            final(self).active == i,
    {
        self.active = i;
    }

    /// Close tab `i` (nothing happens to the tabs when there is no such
    /// tab). When the last tab closes, `fresh` takes its place. The active
    /// index stays where it was, moved back onto the last tab if it fell
    /// past the end.
    pub fn close(&mut self, i: usize, fresh: T)
        ensures
            final(self).wf(),
            final(self).tabs@ == {
                let rest = if i < old(self).tabs@.len() {
                    old(self).tabs@.remove(i as int)
                } else {
                    old(self).tabs@
                };
                if rest.len() == 0 {
                    seq![fresh]
                } else {
                    rest
                }
            },
            final(self).active == if old(self).active < final(self).tabs@.len() {
                old(self).active
            } else {
                (final(self).tabs@.len() - 1) as usize
            },
            final(self).active < final(self).tabs@.len(),
    {
        if i < self.tabs.len() {
            let _closed = self.tabs.remove(i);
        }
        if self.tabs.len() == 0 {
            self.tabs.push(fresh);
            assert(self.tabs@ =~= seq![fresh]);
        }
        if self.active >= self.tabs.len() {
            self.active = self.tabs.len() - 1;
        }
    }

    /// Keep only tab `i`, which becomes active.
    pub fn close_others(&mut self, i: usize)
        requires
            i < old(self).tabs@.len(),
        ensures
            final(self).wf(),
            final(self).tabs@ == seq![old(self).tabs@[i as int]],
            final(self).active == 0,
    {
        let keep = self.tabs.remove(i);
        self.tabs.clear();
        self.tabs.push(keep);
        assert(self.tabs@ =~= seq![old(self).tabs@[i as int]]);
        self.active = 0;
    }

    /// Close every tab to the right of tab `i`; the active index moves back
    /// to `i` when it was further right.
    pub fn close_right(&mut self, i: usize)
        requires
            i < usize::MAX,
        ensures
            final(self).tabs@ == if i + 1 < old(self).tabs@.len() {
                old(self).tabs@.take(i + 1)
            } else {
                old(self).tabs@
            },
            final(self).active == if old(self).active < i {
                old(self).active
            } else {
                i
            },
            old(self).wf() ==> final(self).wf(),
    {
        self.tabs.truncate(i + 1);
        if self.active > i {
            self.active = i;
        }
    }
}


/// The tabs that input typed in tab `from` is mirrored to when input is
/// synchronised: every other tab whose session is connected, in order.
pub open spec fn mirror_targets(sync_input: bool, from: int, connected: Seq<bool>, has_input: bool) -> Seq<int> {
    if !sync_input || !has_input {
        Seq::empty()
    } else {
        Seq::new(connected.len(), |i: int| i).filter(mirrors_to(from, connected))
    }
}

/// Whether tab `i` is mirrored to from tab `from`.
pub open spec fn mirrors_to(from: int, connected: Seq<bool>) -> spec_fn(int) -> bool {
    |i: int| i != from && connected[i]
}

/// Which tabs receive a copy of input typed in tab `from`.
pub fn broadcast_targets(sync_input: bool, from: usize, connected: &Vec<bool>, has_input: bool) -> (t: Vec<usize>)
    ensures
        t@.map_values(|i: usize| i as int) == mirror_targets(sync_input, from as int, connected@, has_input),
{
    let mut t: Vec<usize> = Vec::new();
    if !sync_input || !has_input {
        assert(t@.map_values(|i: usize| i as int) =~= Seq::<int>::empty());
        return t;
    }
    let ghost all = Seq::new(connected@.len(), |i: int| i);
    let ghost keep = mirrors_to(from as int, connected@);
    let mut i: usize = 0;
    while i < connected.len()
        invariant
            i <= connected.len(),
            all == Seq::new(connected@.len(), |i: int| i),
            keep == mirrors_to(from as int, connected@),
            t@.map_values(|k: usize| k as int) == all.take(i as int).filter(keep),
        decreases connected.len() - i,
    {
        proof {
            assert(all.take(i + 1).drop_last() =~= all.take(i as int));
            all.take(i as int).lemma_filter_push(i as int, keep);
            assert(all.take(i as int).push(i as int) =~= all.take(i + 1));
        }
        assert(keep(i as int) == (i != from && connected@[i as int]));
        if i != from && connected[i] {
            t.push(i);
            assert(t@.map_values(|k: usize| k as int) =~= all.take(i as int).filter(keep).push(i as int));
        }
        i += 1;
    }
    assert(all.take(connected@.len() as int) =~= all);
    t
}

} // verus!
