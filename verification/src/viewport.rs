//! The multi-viewport coordinator's state: one entry per open window,
//! keyed by window identity, with the UI state that belongs to it. The
//! shell owns the OS windows and GPU surfaces; this registry is the
//! authoritative record of which windows exist, what each one shows, and
//! how window lifecycle events change that record.
//!
//! Cross-window notifications are queued as `MyEvent` values and applied
//! strictly after the redraw pass that produced them, so the registry is
//! never mutated while it is being iterated.

use vstd::prelude::*;
use crate::control_panel::ControlPanel;
use crate::display_window::DisplayWindow;

verus! {

/// The UI state of one window: the closed set of variants, dispatched by
/// an exhaustive match wherever the coordinator needs to.
#[derive(Clone, Copy, PartialEq, Eq, Structural, Debug)]
pub enum GuiImpl {
    ControlPanel(ControlPanel),
    DisplayWindow(DisplayWindow),
}

/// One open window as the coordinator sees it: the configured surface
/// dimensions and the UI state. The OS window and the GPU surface
/// themselves stay with the shell.
#[derive(Clone, Copy, PartialEq, Eq, Structural, Debug)]
pub struct Viewport {
    pub config_width: u32,
    pub config_height: u32,
    pub gui: GuiImpl,
}

/// A deferred cross-window notification, drained after the redraw pass
/// that enqueued it.
#[derive(Clone, Copy, PartialEq, Eq, Structural, Debug)]
pub enum MyEvent {
    OpenWindow(u64, Viewport),
    CloseWindow(u64),
    UpdateChildWindowData(u64, u64),
}

/// The registry of open windows: window identity to viewport, keys unique,
/// insertion order irrelevant.
pub struct ViewportRegistry {
    pub entries: Vec<(u64, Viewport)>,
}

impl ViewportRegistry {
    /// Keys are pairwise distinct.
    pub open spec fn wf(self) -> bool {
        forall|i: int, j: int|
            0 <= i < self.entries@.len() && 0 <= j < self.entries@.len() && i != j
            ==> (#[trigger] self.entries@[i]).0 != (#[trigger] self.entries@[j]).0
    }

    /// Some entry carries this window identity.
    pub open spec fn spec_contains(self, id: u64) -> bool {
        exists|i: int| 0 <= i < self.entries@.len() && (#[trigger] self.entries@[i]).0 == id
    }

    /// The position of the entry with this identity.
    pub open spec fn spec_index_of(self, id: u64) -> int {
        choose|i: int| 0 <= i < self.entries@.len() && (#[trigger] self.entries@[i]).0 == id
    }

    /// The viewport registered under this identity.
    pub open spec fn spec_get(self, id: u64) -> Viewport {
        self.entries@[self.spec_index_of(id)].1
    }

    pub open spec fn spec_len(self) -> nat {
        self.entries@.len()
    }

    /// In a well-formed registry the entry at position `i` is the one its
    /// key resolves to.
    pub proof fn lemma_key_at(self, i: int)
        requires
            self.wf(),
            0 <= i < self.entries@.len(),
        ensures
            self.spec_contains(self.entries@[i].0),
            self.spec_index_of(self.entries@[i].0) == i,
            self.spec_get(self.entries@[i].0) == self.entries@[i].1,
    {
        let id = self.entries@[i].0;
        assert(self.spec_contains(id));
        let j = self.spec_index_of(id);
        assert(0 <= j < self.entries@.len() && self.entries@[j].0 == id);
        assert(j == i);
    }

    /// An empty registry.
    pub fn new() -> (r: Self)
        ensures
            r.wf(),
            r.spec_len() == 0,
            forall|id: u64| !r.spec_contains(id),
    {
        ViewportRegistry { entries: Vec::new() }
    }

    pub fn len(&self) -> (n: usize)
        ensures
            n == self.spec_len(),
    {
        self.entries.len()
    }

    pub fn is_empty(&self) -> (b: bool)
        ensures
            b == (self.spec_len() == 0),
    {
        self.entries.len() == 0
    }

    /// Whether a window with this identity is registered.
    pub fn contains(&self, id: u64) -> (b: bool)
        ensures
            b == self.spec_contains(id),
    {
        let n = self.entries.len();
        let mut i: usize = 0;
        while i < n
            invariant
                i <= n,
                n == self.entries@.len(),
                forall|k: int| 0 <= k < i ==> (#[trigger] self.entries@[k]).0 != id,
            decreases n - i,
        {
            if self.entries[i].0 == id {
                return true;
            }
            i = i + 1;
        }
        false
    }

    /// Register a window under a fresh identity.
    pub fn insert(&mut self, id: u64, vp: Viewport)
        requires
            old(self).wf(),
            !old(self).spec_contains(id),
        ensures
            final(self).wf(),
            final(self).entries@ == old(self).entries@.push((id, vp)),
            final(self).spec_contains(id),
            final(self).spec_get(id) == vp,
            final(self).spec_len() == old(self).spec_len() + 1,
            forall|o: u64| o != id ==>
                #[trigger] final(self).spec_contains(o) == old(self).spec_contains(o),
            forall|o: u64| o != id && old(self).spec_contains(o) ==>
                #[trigger] final(self).spec_get(o) == old(self).spec_get(o),
    {
        self.entries.push((id, vp));
        proof {
            let pre = *old(self);
            let n = pre.entries@.len() as int;
            assert forall|i: int, j: int|
                0 <= i < self.entries@.len() && 0 <= j < self.entries@.len() && i != j
                implies (#[trigger] self.entries@[i]).0 != (#[trigger] self.entries@[j]).0 by {
                if i == n && 0 <= j < n {
                    pre.lemma_key_at(j);
                } else if j == n && 0 <= i < n {
                    pre.lemma_key_at(i);
                }
            }
            self.lemma_key_at(n);
            assert forall|o: u64| o != id
                implies #[trigger] self.spec_contains(o) == pre.spec_contains(o) by {
                if pre.spec_contains(o) {
                    let i = pre.spec_index_of(o);
                    assert(0 <= i < n && pre.entries@[i].0 == o);
                    assert(self.entries@[i].0 == o);
                    assert(self.spec_contains(o));
                }
                if self.spec_contains(o) {
                    let i = self.spec_index_of(o);
                    assert(0 <= i < self.entries@.len() && self.entries@[i].0 == o);
                    assert(i != n);
                    assert(pre.entries@[i].0 == o);
                    assert(pre.spec_contains(o));
                }
            }
            assert forall|o: u64| o != id && pre.spec_contains(o)
                implies #[trigger] self.spec_get(o) == pre.spec_get(o) by {
                let i = pre.spec_index_of(o);
                assert(0 <= i < n && pre.entries@[i].0 == o);
                pre.lemma_key_at(i);
                assert(self.entries@[i] == pre.entries@[i]);
                self.lemma_key_at(i);
            }
        }
    }

    /// Deregister the window with this identity; an absent identity is a
    /// no-op.
    pub fn remove(&mut self, id: u64)
        requires
            old(self).wf(),
        ensures
            final(self).wf(),
            !final(self).spec_contains(id),
            old(self).spec_contains(id)
                ==> final(self).spec_len() == old(self).spec_len() - 1,
            !old(self).spec_contains(id) ==> *final(self) == *old(self),
            forall|o: u64| o != id ==>
                #[trigger] final(self).spec_contains(o) == old(self).spec_contains(o),
            forall|o: u64| o != id && old(self).spec_contains(o) ==>
                #[trigger] final(self).spec_get(o) == old(self).spec_get(o),
    {
        let n = self.entries.len();
        let mut i: usize = 0;
        while i < n
            invariant
                i <= n,
                n == self.entries@.len(),
                *self == *old(self),
                old(self).wf(),
                forall|k: int| 0 <= k < i ==> (#[trigger] self.entries@[k]).0 != id,
            decreases n - i,
        {
            if self.entries[i].0 == id {
                let ghost pre = *old(self);
                let _removed = self.entries.remove(i);
                proof {
                    pre.entries@.remove_ensures(i as int);
                    let post = self.entries@;
                    let ii = i as int;
                    assert forall|a: int, b: int|
                        0 <= a < post.len() && 0 <= b < post.len() && a != b
                        implies (#[trigger] post[a]).0 != (#[trigger] post[b]).0 by {
                        let a0: int = if a < ii { a } else { a + 1 };
                        let b0: int = if b < ii { b } else { b + 1 };
                        assert(post[a] == pre.entries@[a0]);
                        assert(post[b] == pre.entries@[b0]);
                    }
                    assert forall|k: int| 0 <= k < post.len()
                        implies (#[trigger] post[k]).0 != id by {
                        let k0: int = if k < ii { k } else { k + 1 };
                        assert(post[k] == pre.entries@[k0]);
                        assert(k0 != ii);
                        pre.lemma_key_at(k0);
                        pre.lemma_key_at(ii);
                    }
                    assert(!self.spec_contains(id));
                    pre.lemma_key_at(ii);
                    assert forall|o: u64| o != id
                        implies #[trigger] self.spec_contains(o) == pre.spec_contains(o) by {
                        if pre.spec_contains(o) {
                            let j = pre.spec_index_of(o);
                            assert(0 <= j < pre.entries@.len() && pre.entries@[j].0 == o);
                            assert(j != ii);
                            let j1: int = if j < ii { j } else { j - 1 };
                            assert(post[j1] == pre.entries@[j]);
                            assert(self.spec_contains(o));
                        }
                        if self.spec_contains(o) {
                            let j = self.spec_index_of(o);
                            assert(0 <= j < post.len() && post[j].0 == o);
                            let j0: int = if j < ii { j } else { j + 1 };
                            assert(pre.entries@[j0] == post[j]);
                            assert(pre.spec_contains(o));
                        }
                    }
                    assert forall|o: u64| o != id && pre.spec_contains(o)
                        implies #[trigger] self.spec_get(o) == pre.spec_get(o) by {
                        let j = pre.spec_index_of(o);
                        assert(0 <= j < pre.entries@.len() && pre.entries@[j].0 == o);
                        pre.lemma_key_at(j);
                        assert(j != ii);
                        let j1: int = if j < ii { j } else { j - 1 };
                        assert(post[j1] == pre.entries@[j]);
                        self.lemma_key_at(j1);
                    }
                }
                return;
            }
            i = i + 1;
        }
        assert(!self.spec_contains(id));
    }

    /// Replace the viewport registered under an existing identity.
    pub fn set(&mut self, id: u64, vp: Viewport)
        requires
            old(self).wf(),
            old(self).spec_contains(id),
        ensures
            final(self).wf(),
            final(self).spec_contains(id),
            final(self).spec_get(id) == vp,
            final(self).spec_len() == old(self).spec_len(),
            forall|o: u64| o != id ==>
                #[trigger] final(self).spec_contains(o) == old(self).spec_contains(o),
            forall|o: u64| o != id && old(self).spec_contains(o) ==>
                #[trigger] final(self).spec_get(o) == old(self).spec_get(o),
    {
        let n = self.entries.len();
        let mut i: usize = 0;
        while i < n
            invariant
                i <= n,
                n == self.entries@.len(),
                *self == *old(self),
                old(self).wf(),
                old(self).spec_contains(id),
                forall|k: int| 0 <= k < i ==> (#[trigger] self.entries@[k]).0 != id,
            decreases n - i,
        {
            if self.entries[i].0 == id {
                let ghost pre = *old(self);
                let mut entry = self.entries.remove(i);
                entry.1 = vp;
                self.entries.insert(i, entry);
                proof {
                    let ii = i as int;
                    pre.entries@.remove_ensures(ii);
                    pre.entries@.remove(ii).insert_ensures(ii, (id, vp));
                    let post = self.entries@;
                    assert forall|k: int| 0 <= k < post.len() && k != ii
                        implies #[trigger] post[k] == pre.entries@[k] by {
                        if k < ii {
                            assert(post[k] == pre.entries@.remove(ii)[k]);
                        } else {
                            assert(post[k] == pre.entries@.remove(ii)[k - 1]);
                        }
                    }
                    assert(post[ii] == (id, vp));
                    assert(post.len() == pre.entries@.len());
                    assert forall|a: int, b: int|
                        0 <= a < post.len() && 0 <= b < post.len() && a != b
                        implies (#[trigger] post[a]).0 != (#[trigger] post[b]).0 by {
                        assert(post[a].0 == pre.entries@[a].0);
                        assert(post[b].0 == pre.entries@[b].0);
                    }
                    self.lemma_key_at(ii);
                    pre.lemma_key_at(ii);
                    assert forall|o: u64| o != id
                        implies #[trigger] self.spec_contains(o) == pre.spec_contains(o) by {
                        if pre.spec_contains(o) {
                            let j = pre.spec_index_of(o);
                            assert(0 <= j < pre.entries@.len() && pre.entries@[j].0 == o);
                            assert(j != ii);
                            assert(post[j] == pre.entries@[j]);
                            assert(self.spec_contains(o));
                        }
                        if self.spec_contains(o) {
                            let j = self.spec_index_of(o);
                            assert(0 <= j < post.len() && post[j].0 == o);
                            assert(j != ii);
                            assert(pre.entries@[j] == post[j]);
                            assert(pre.spec_contains(o));
                        }
                    }
                    assert forall|o: u64| o != id && pre.spec_contains(o)
                        implies #[trigger] self.spec_get(o) == pre.spec_get(o) by {
                        let j = pre.spec_index_of(o);
                        assert(0 <= j < pre.entries@.len() && pre.entries@[j].0 == o);
                        pre.lemma_key_at(j);
                        assert(j != ii);
                        assert(post[j] == pre.entries@[j]);
                        self.lemma_key_at(j);
                    }
                }
                return;
            }
            i = i + 1;
        }
        proof {
            assert(!old(self).spec_contains(id));
        }
    }

    /// Read the viewport registered under an identity.
    pub fn get(&self, id: u64) -> (r: Option<Viewport>)
        requires
            self.wf(),
        ensures
            match r {
                Some(vp) => self.spec_contains(id) && vp == self.spec_get(id),
                None => !self.spec_contains(id),
            },
    {
        let n = self.entries.len();
        let mut i: usize = 0;
        while i < n
            invariant
                i <= n,
                self.wf(),
                n == self.entries@.len(),
                forall|k: int| 0 <= k < i ==> (#[trigger] self.entries@[k]).0 != id,
            decreases n - i,
        {
            if self.entries[i].0 == id {
                proof {
                    self.lemma_key_at(i as int);
                }
                return Some(self.entries[i].1);
            }
            i = i + 1;
        }
        None
    }

    /// Deregister every window, as closing the root window does.
    pub fn clear(&mut self)
        ensures
            final(self).wf(),
            final(self).spec_len() == 0,
            forall|id: u64| !final(self).spec_contains(id),
    {
        self.entries.clear();
    }
}

/// Apply one deferred cross-window notification to the registry: an open
/// inserts, a close removes, a child-data update forwards the new texture
/// into the addressed display window's UI state.
pub fn handle_user_event(reg: &mut ViewportRegistry, event: MyEvent)
    requires
        old(reg).wf(),
        event matches MyEvent::OpenWindow(id, _vp) ==> !old(reg).spec_contains(id),
        event matches MyEvent::UpdateChildWindowData(id, _tex)
            ==> old(reg).spec_contains(id)
                && old(reg).spec_get(id).gui is DisplayWindow,
    ensures
        final(reg).wf(),
        match event {
            MyEvent::OpenWindow(id, vp) => {
                &&& final(reg).spec_contains(id)
                &&& final(reg).spec_get(id) == vp
                &&& final(reg).spec_len() == old(reg).spec_len() + 1
                &&& forall|o: u64| o != id ==>
                        #[trigger] final(reg).spec_contains(o) == old(reg).spec_contains(o)
                &&& forall|o: u64| o != id && old(reg).spec_contains(o) ==>
                        #[trigger] final(reg).spec_get(o) == old(reg).spec_get(o)
            },
            MyEvent::CloseWindow(id) => {
                &&& !final(reg).spec_contains(id)
                &&& old(reg).spec_contains(id)
                        ==> final(reg).spec_len() == old(reg).spec_len() - 1
                &&& !old(reg).spec_contains(id) ==> *final(reg) == *old(reg)
                &&& forall|o: u64| o != id ==>
                        #[trigger] final(reg).spec_contains(o) == old(reg).spec_contains(o)
                &&& forall|o: u64| o != id && old(reg).spec_contains(o) ==>
                        #[trigger] final(reg).spec_get(o) == old(reg).spec_get(o)
            },
            MyEvent::UpdateChildWindowData(id, tex) => {
                &&& final(reg).spec_contains(id)
                &&& final(reg).spec_get(id) == (Viewport {
                        gui: GuiImpl::DisplayWindow(DisplayWindow { texture: tex }),
                        ..old(reg).spec_get(id)
                    })
                &&& final(reg).spec_len() == old(reg).spec_len()
                &&& forall|o: u64| o != id ==>
                        #[trigger] final(reg).spec_contains(o) == old(reg).spec_contains(o)
                &&& forall|o: u64| o != id && old(reg).spec_contains(o) ==>
                        #[trigger] final(reg).spec_get(o) == old(reg).spec_get(o)
            },
        },
{
    match event {
        MyEvent::OpenWindow(id, vp) => {
            reg.insert(id, vp);
        },
        MyEvent::CloseWindow(id) => {
            reg.remove(id);
        },
        MyEvent::UpdateChildWindowData(id, tex) => {
            let mut vp = match reg.get(id) {
                Some(v) => v,
                None => vstd::pervasive::unreached(),
            };
            match vp.gui {
                GuiImpl::DisplayWindow(mut dw) => {
                    dw.update_texture(tex);
                    vp.gui = GuiImpl::DisplayWindow(dw);
                },
                GuiImpl::ControlPanel(_) => {
                    vstd::pervasive::unreached::<()>();
                },
            }
            reg.set(id, vp);
        },
    }
}

/// A window asked to close. Closing the root window tears every viewport
/// down and ends the application. Closing a child first tells the root
/// window's control state that its child is gone — so the control UI falls
/// back to compact mode — then deregisters the child; the application also
/// ends if no window is left.
pub fn handle_close_requested(reg: &mut ViewportRegistry, window_id: u64, main_window_id: u64)
    -> (exit: bool)
    requires
        old(reg).wf(),
        window_id != main_window_id
            ==> old(reg).spec_contains(main_window_id)
                && old(reg).spec_get(main_window_id).gui is ControlPanel,
    ensures
        final(reg).wf(),
        window_id == main_window_id ==> final(reg).spec_len() == 0 && exit,
        window_id != main_window_id ==> {
            &&& final(reg).spec_contains(main_window_id)
            &&& final(reg).spec_get(main_window_id) == (Viewport {
                    gui: GuiImpl::ControlPanel(ControlPanel {
                        child_window_id: None,
                        mode: crate::control_panel::Mode::Compact,
                        ..old(reg).spec_get(main_window_id).gui->ControlPanel_0
                    }),
                    ..old(reg).spec_get(main_window_id)
                })
            &&& !final(reg).spec_contains(window_id)
            &&& forall|o: u64| o != window_id && o != main_window_id ==>
                    #[trigger] final(reg).spec_contains(o) == old(reg).spec_contains(o)
            &&& forall|o: u64| o != window_id && o != main_window_id
                    && old(reg).spec_contains(o) ==>
                    #[trigger] final(reg).spec_get(o) == old(reg).spec_get(o)
            &&& exit == (final(reg).spec_len() == 0)
        },
{
    if window_id == main_window_id {
        reg.clear();
        true
    } else {
        let mut vp = match reg.get(main_window_id) {
            Some(v) => v,
            None => vstd::pervasive::unreached(),
        };
        match vp.gui {
            GuiImpl::ControlPanel(mut cp) => {
                cp.notify_child_ui_has_closed(window_id);
                vp.gui = GuiImpl::ControlPanel(cp);
            },
            GuiImpl::DisplayWindow(_) => {
                vstd::pervasive::unreached::<()>();
            },
        }
        reg.set(main_window_id, vp);
        reg.remove(window_id);
        reg.is_empty()
    }
}

/// A window was resized: adopt the new surface dimensions, unless either
/// is zero — the platform's minimize signal — which is ignored rather than
/// applied, so no zero-area surface is ever configured. An unknown window
/// is ignored too. Reports whether the dimensions were adopted, so the
/// shell knows to reconfigure the real surface.
pub fn handle_resize(reg: &mut ViewportRegistry, id: u64, width: u32, height: u32)
    -> (applied: bool)
    requires
        old(reg).wf(),
    ensures
        final(reg).wf(),
        applied == (old(reg).spec_contains(id) && width > 0 && height > 0),
        !applied ==> *final(reg) == *old(reg),
        applied ==> {
            &&& final(reg).spec_contains(id)
            &&& final(reg).spec_get(id) == (Viewport {
                    config_width: width,
                    config_height: height,
                    ..old(reg).spec_get(id)
                })
            &&& final(reg).spec_len() == old(reg).spec_len()
            &&& forall|o: u64| o != id ==>
                    #[trigger] final(reg).spec_contains(o) == old(reg).spec_contains(o)
            &&& forall|o: u64| o != id && old(reg).spec_contains(o) ==>
                    #[trigger] final(reg).spec_get(o) == old(reg).spec_get(o)
        },
{
    match reg.get(id) {
        None => false,
        Some(vp) => {
            if width > 0 && height > 0 {
                let mut vp = vp;
                vp.config_width = width;
                vp.config_height = height;
                reg.set(id, vp);
                true
            } else {
                false
            }
        },
    }
}

} // verus!
