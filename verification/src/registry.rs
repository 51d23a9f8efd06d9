//! The owned registry of live pet windows.
//!
//! The session manager keeps one entry per window it created: the label,
//! the last known logical position, the visibility flag, and the native
//! extended style the window carries.  Labels are unique within the
//! registry.  Creating a window whose label already exists is a no-op, so
//! a race between startup restoration and a user-triggered spawn cannot
//! produce duplicate pets.

use vstd::prelude::*;

use crate::platform::{ClickThroughError, Platform, is_click_through_supported};
use crate::platform::spec_click_through_supported;
use crate::state::{PetV, PetWindowState, SessionConfig};
use crate::state::{
    DEFAULT_PET_X, DEFAULT_PET_Y, default_label, spec_config_wf, spec_default_label,
    spec_has_pet_prefix, spec_valid_label,
};
use crate::style::{EX_STYLE_LAYERED, set_click_through, spec_apply_click_through};

verus! {

/// Mathematical value of one live window entry.
pub ghost struct WinV {
    pub label: Seq<u8>,
    pub x: int,
    pub y: int,
    pub visible: bool,
    pub ex_style: u32,
}

/// One live window: label, logical position, visibility, and the native
/// extended style bits.
#[derive(Debug)]
pub struct PetWindow {
    pub label: Vec<u8>,
    pub x: i64,
    pub y: i64,
    pub visible: bool,
    pub ex_style: u32,
}

impl View for PetWindow {
    type V = WinV;

    open spec fn view(&self) -> WinV {
        WinV {
            label: self.label@,
            x: self.x as int,
            y: self.y as int,
            visible: self.visible,
            ex_style: self.ex_style,
        }
    }
}

/// The registry of live windows, in creation order.
#[derive(Debug)]
pub struct PetRegistry {
    pub windows: Vec<PetWindow>,
}

impl View for PetRegistry {
    type V = Seq<WinV>;

    open spec fn view(&self) -> Seq<WinV> {
        self.windows@.map_values(|w: PetWindow| w@)
    }
}

/// Index of the first window carrying `label`, or -1 if none does.
pub open spec fn spec_find_label(ws: Seq<WinV>, label: Seq<u8>) -> int
    decreases ws.len(),
{
    if ws.len() == 0 {
        -1
    } else if ws[0].label == label {
        0
    } else {
        let r = spec_find_label(ws.drop_first(), label);
        if r < 0 {
            -1
        } else {
            r + 1
        }
    }
}

/// Some window carries `label`.
pub open spec fn spec_has_label(ws: Seq<WinV>, label: Seq<u8>) -> bool {
    spec_find_label(ws, label) >= 0
}

/// What `spec_find_label` returns: the first index carrying the label, or
/// -1 when no index does.
pub proof fn lemma_find_label_props(ws: Seq<WinV>, label: Seq<u8>)
    ensures
        spec_find_label(ws, label) >= 0 ==> {
            let r = spec_find_label(ws, label);
            &&& 0 <= r < ws.len()
            &&& ws[r].label == label
            &&& forall|t: int| 0 <= t < r ==> (#[trigger] ws[t]).label != label
        },
        spec_find_label(ws, label) < 0 ==> spec_find_label(ws, label) == -1 && forall|t: int|
            0 <= t < ws.len() ==> (#[trigger] ws[t]).label != label,
    decreases ws.len(),
{
    if ws.len() > 0 && ws[0].label != label {
        let rest = ws.drop_first();
        lemma_find_label_props(rest, label);
        assert(forall|t: int| 0 <= t < rest.len() ==> rest[t] == ws[t + 1]);
        let rr = spec_find_label(rest, label);
        if rr >= 0 {
            let r = spec_find_label(ws, label);
            assert(r == rr + 1);
            assert(ws[r] == rest[rr]);
            assert forall|t: int| 0 <= t < r implies (#[trigger] ws[t]).label != label by {
                if t > 0 {
                    assert(ws[t] == rest[t - 1]);
                }
            }
        } else {
            assert(spec_find_label(ws, label) == -1);
            assert forall|t: int| 0 <= t < ws.len() implies (#[trigger] ws[t]).label != label by {
                if t > 0 {
                    assert(ws[t] == rest[t - 1]);
                }
            }
        }
    }
}

/// The registry's invariant: labels are unique and every label is well
/// formed.
pub open spec fn spec_registry_wf(ws: Seq<WinV>) -> bool {
    &&& forall|i: int, j: int|
        0 <= i < j < ws.len() ==> (#[trigger] ws[i]).label != (#[trigger] ws[j]).label
    &&& forall|i: int| 0 <= i < ws.len() ==> spec_valid_label((#[trigger] ws[i]).label)
    &&& forall|i: int|
        0 <= i < ws.len() ==> i64::MIN <= (#[trigger] ws[i]).x <= i64::MAX && i64::MIN
            <= ws[i].y <= i64::MAX
}

/// The window a freshly created entry is: visible, at the given position,
/// with the layered style bit that the transparent chrome needs and
/// click-through disabled.
pub open spec fn spec_new_window(label: Seq<u8>, x: int, y: int, visible: bool) -> WinV {
    WinV { label, x, y, visible, ex_style: EX_STYLE_LAYERED }
}

/// Creating a window: a no-op when the label exists, otherwise one new
/// visible entry at the given position.
pub open spec fn spec_create(ws: Seq<WinV>, label: Seq<u8>, x: int, y: int) -> Seq<WinV> {
    if spec_has_label(ws, label) {
        ws
    } else {
        ws.push(spec_new_window(label, x, y, true))
    }
}

/// Setting one window's visibility, if the label is present.
pub open spec fn spec_set_visible(ws: Seq<WinV>, label: Seq<u8>, visible: bool) -> Seq<WinV> {
    let r = spec_find_label(ws, label);
    if r < 0 {
        ws
    } else {
        ws.update(r, WinV { visible, ..ws[r] })
    }
}

/// Moving one window, if the label is present.
pub open spec fn spec_set_position(ws: Seq<WinV>, label: Seq<u8>, x: int, y: int) -> Seq<WinV> {
    let r = spec_find_label(ws, label);
    if r < 0 {
        ws
    } else {
        ws.update(r, WinV { x, y, ..ws[r] })
    }
}

/// The outcome of a click-through request on one window: the new registry
/// contents and the uniform result.
pub open spec fn spec_set_click_through(
    ws: Seq<WinV>,
    label: Seq<u8>,
    enabled: bool,
    platform: Platform,
) -> (Seq<WinV>, Result<(), ClickThroughError>) {
    if !spec_click_through_supported(platform) {
        (ws, Err(ClickThroughError::UnsupportedPlatform))
    } else {
        let r = spec_find_label(ws, label);
        if r < 0 {
            (ws, Err(ClickThroughError::HandleUnavailable))
        } else {
            (
                ws.update(
                    r,
                    WinV { ex_style: spec_apply_click_through(ws[r].ex_style, enabled), ..ws[r] },
                ),
                Ok(()),
            )
        }
    }
}

/// Showing every pet window, leaving other windows alone.
pub open spec fn spec_show_all(ws: Seq<WinV>) -> Seq<WinV> {
    ws.map_values(
        |w: WinV|
            if spec_has_pet_prefix(w.label) {
                WinV { visible: true, ..w }
            } else {
                w
            },
    )
}

/// Flipping every pet window's visibility independently, leaving other
/// windows alone.
pub open spec fn spec_toggle_all_visibility(ws: Seq<WinV>) -> Seq<WinV> {
    ws.map_values(
        |w: WinV|
            if spec_has_pet_prefix(w.label) {
                WinV { visible: !w.visible, ..w }
            } else {
                w
            },
    )
}

/// The persisted record of one live window.
pub open spec fn spec_pet_of(w: WinV) -> PetV {
    PetV { label: w.label, x: w.x, y: w.y, visible: w.visible }
}

/// The snapshot of the registry: one record per window whose label carries
/// the pet prefix, in registry order.
pub open spec fn spec_snapshot(ws: Seq<WinV>) -> Seq<PetV>
    decreases ws.len(),
{
    if ws.len() == 0 {
        Seq::empty()
    } else {
        (if spec_has_pet_prefix(ws[0].label) {
            seq![spec_pet_of(ws[0])]
        } else {
            Seq::<PetV>::empty()
        }) + spec_snapshot(ws.drop_first())
    }
}

/// Restoring one saved record: a no-op when the label exists, otherwise a
/// new entry at the saved position with the saved visibility and a fresh
/// style (click-through intent is not persisted).
pub open spec fn spec_restore_one(ws: Seq<WinV>, p: PetV) -> Seq<WinV> {
    if spec_has_label(ws, p.label) {
        ws
    } else {
        ws.push(spec_new_window(p.label, p.x, p.y, p.visible))
    }
}

/// Restoring a list of saved records, first to last.
pub open spec fn spec_restore(ws: Seq<WinV>, ps: Seq<PetV>) -> Seq<WinV>
    decreases ps.len(),
{
    if ps.len() == 0 {
        ws
    } else {
        spec_restore(spec_restore_one(ws, ps[0]), ps.drop_first())
    }
}

/// The default pet created on a first run.
pub open spec fn spec_default_pet() -> PetV {
    PetV { label: spec_default_label(), x: DEFAULT_PET_X as int, y: DEFAULT_PET_Y as int, visible: true }
}

/// Restoring a configuration: an empty one yields the single default pet,
/// any other one is restored record by record.
pub open spec fn spec_restore_config(ws: Seq<WinV>, ps: Seq<PetV>) -> Seq<WinV> {
    if ps.len() == 0 {
        spec_restore_one(ws, spec_default_pet())
    } else {
        spec_restore(ws, ps)
    }
}

/// Whether two byte vectors hold the same bytes.
fn bytes_equal(a: &Vec<u8>, b: &Vec<u8>) -> (r: bool)
    ensures
        r == (a@ == b@),
{
    if a.len() != b.len() {
        return false;
    }
    let mut k: usize = 0;
    while k < a.len()
        invariant
            a@.len() == b@.len(),
            k <= a@.len(),
            forall|t: int| 0 <= t < k ==> a@[t] == b@[t],
        decreases a@.len() - k,
    {
        if a[k] != b[k] {
            return false;
        }
        k += 1;
    }
    proof {
        assert(a@ =~= b@);
    }
    true
}

/// Copies the bytes of a label.
fn clone_bytes(a: &Vec<u8>) -> (r: Vec<u8>)
    ensures
        r@ == a@,
{
    let mut r: Vec<u8> = Vec::new();
    let mut k: usize = 0;
    while k < a.len()
        invariant
            k <= a@.len(),
            r@ == a@.take(k as int),
        decreases a@.len() - k,
    {
        r.push(a[k]);
        assert(r@ =~= a@.take(k + 1 as int));
        k += 1;
    }
    assert(a@.take(a@.len() as int) =~= a@);
    r
}

/// Whether the label starts with the pet prefix.
pub fn label_has_pet_prefix(label: &Vec<u8>) -> (r: bool)
    ensures
        r == spec_has_pet_prefix(label@),
{
    if label.len() < 4 {
        return false;
    }
    let r = label[0] == 102 && label[1] == 114 && label[2] == 111 && label[3] == 103;
    proof {
        if r {
            assert(label@.subrange(0, 4) =~= crate::state::spec_pet_prefix());
        } else {
            if label@.subrange(0, 4) == crate::state::spec_pet_prefix() {
                assert(label@[0] == label@.subrange(0, 4)[0]);
                assert(label@[1] == label@.subrange(0, 4)[1]);
                assert(label@[2] == label@.subrange(0, 4)[2]);
                assert(label@[3] == label@.subrange(0, 4)[3]);
            }
        }
    }
    r
}

impl PetRegistry {
    /// An empty registry: the state at process start, before restoration.
    pub fn new() -> (registry: PetRegistry)
        ensures
            registry@ == Seq::<WinV>::empty(),
            spec_registry_wf(registry@),
    {
        let registry = PetRegistry { windows: Vec::new() };
        proof {
            assert(registry@ =~= Seq::<WinV>::empty());
        }
        registry
    }

    /// How many windows are live.
    pub fn window_count(&self) -> (n: usize)
        ensures
            n == self@.len(),
    {
        self.windows.len()
    }

    /// Index of the window carrying `label`, if any.
    fn find_window(&self, label: &Vec<u8>) -> (r: Option<usize>)
        ensures
            match r {
                Some(k) => 0 <= k < self@.len() && spec_find_label(self@, label@) == k as int,
                None => spec_find_label(self@, label@) == -1,
            },
    {
        let mut k: usize = 0;
        while k < self.windows.len()
            invariant
                k <= self@.len(),
                self@.len() == self.windows@.len(),
                forall|t: int| 0 <= t < k ==> (#[trigger] self@[t]).label != label@,
            decreases self@.len() - k,
        {
            if bytes_equal(&self.windows[k].label, label) {
                proof {
                    assert(self@[k as int].label == label@);
                    lemma_find_label_props(self@, label@);
                }
                return Some(k);
            }
            assert(self@[k as int].label != label@);
            k += 1;
        }
        proof {
            lemma_find_label_props(self@, label@);
        }
        None
    }

    /// Creates a pet window with the fixed chrome at the given logical
    /// position: visible, layered, click-through disabled.  A window whose
    /// label already exists is left untouched and the call succeeds as a
    /// no-op.
    pub fn create_pet_window(&mut self, label: Vec<u8>, x: i64, y: i64) -> (created: bool)
        requires
            spec_valid_label(label@),
            spec_registry_wf(old(self)@),
        ensures
            final(self)@ == spec_create(old(self)@, label@, x as int, y as int),
            created == !spec_has_label(old(self)@, label@),
            spec_registry_wf(final(self)@),
    {
        let found = self.find_window(&label);
        match found {
            Some(_) => false,
            None => {
                proof {
                    lemma_find_label_props(self@, label@);
                }
                let window = PetWindow { label, x, y, visible: true, ex_style: EX_STYLE_LAYERED };
                self.windows.push(window);
                proof {
                    assert(self@ =~= old(self)@.push(
                        spec_new_window(window.label@, x as int, y as int, true),
                    ));
                    assert(forall|t: int|
                        0 <= t < old(self)@.len() ==> (#[trigger] old(self)@[t]).label
                            != window.label@);
                }
                true
            },
        }
    }

    /// Creating a window twice with one label leaves exactly the state of
    /// the first creation: the second call changes nothing, whatever
    /// coordinates it asks for.
    pub proof fn lemma_create_idempotent(
        ws: Seq<WinV>,
        label: Seq<u8>,
        x1: int,
        y1: int,
        x2: int,
        y2: int,
    )
        ensures
            spec_create(spec_create(ws, label, x1, y1), label, x2, y2) == spec_create(
                ws,
                label,
                x1,
                y1,
            ),
            !spec_has_label(ws, label) ==> {
                let ws1 = spec_create(ws, label, x1, y1);
                &&& spec_find_label(ws1, label) == ws.len()
                &&& ws1[ws.len() as int].x == x1
                &&& ws1[ws.len() as int].y == y1
            },
    {
        let ws1 = spec_create(ws, label, x1, y1);
        if spec_has_label(ws, label) {
        } else {
            let w = spec_new_window(label, x1, y1, true);
            lemma_find_label_props(ws, label);
            Self::lemma_find_label_push(ws, w, label);
        }
    }

    /// Sets one window's visibility flag, as show and hide do.  Returns
    /// whether a window with the label was found.
    pub fn set_visible(&mut self, label: &Vec<u8>, visible: bool) -> (found: bool)
        requires
            spec_registry_wf(old(self)@),
        ensures
            final(self)@ == spec_set_visible(old(self)@, label@, visible),
            found == spec_has_label(old(self)@, label@),
            spec_registry_wf(final(self)@),
    {
        let found = self.find_window(label);
        match found {
            None => false,
            Some(k) => {
                let mut w = self.windows.remove(k);
                w.visible = visible;
                self.windows.insert(k, w);
                proof {
                    let r = k as int;
                    let ws = old(self)@;
                    assert(self@ =~= ws.update(r, WinV { visible, ..ws[r] }));
                    Self::lemma_wf_update(ws, r, WinV { visible, ..ws[r] });
                }
                true
            },
        }
    }

    /// Records one window's new logical position, as the toolkit reports
    /// it after a move.  Returns whether a window with the label was found.
    pub fn set_position(&mut self, label: &Vec<u8>, x: i64, y: i64) -> (found: bool)
        requires
            spec_registry_wf(old(self)@),
        ensures
            final(self)@ == spec_set_position(old(self)@, label@, x as int, y as int),
            found == spec_has_label(old(self)@, label@),
            spec_registry_wf(final(self)@),
    {
        let found = self.find_window(label);
        match found {
            None => false,
            Some(k) => {
                let mut w = self.windows.remove(k);
                w.x = x;
                w.y = y;
                self.windows.insert(k, w);
                proof {
                    let r = k as int;
                    let ws = old(self)@;
                    assert(self@ =~= ws.update(r, WinV { x: x as int, y: y as int, ..ws[r] }));
                    Self::lemma_wf_update(ws, r, WinV { x: x as int, y: y as int, ..ws[r] });
                }
                true
            },
        }
    }

    /// Requests click-through on one window: resolves the label, applies
    /// the platform's style change, and reports the uniform outcome.  On
    /// an unsupported platform every request fails with
    /// `UnsupportedPlatform`; an unknown label fails with
    /// `HandleUnavailable`.
    pub fn set_window_click_through(
        &mut self,
        label: &Vec<u8>,
        enabled: bool,
        platform: Platform,
    ) -> (outcome: Result<(), ClickThroughError>)
        requires
            spec_registry_wf(old(self)@),
        ensures
            final(self)@ == spec_set_click_through(old(self)@, label@, enabled, platform).0,
            outcome == spec_set_click_through(old(self)@, label@, enabled, platform).1,
            spec_registry_wf(final(self)@),
    {
        if !is_click_through_supported(platform) {
            return Err(ClickThroughError::UnsupportedPlatform);
        }
        let found = self.find_window(label);
        match found {
            None => Err(ClickThroughError::HandleUnavailable),
            Some(k) => {
                let mut w = self.windows.remove(k);
                w.ex_style = set_click_through(w.ex_style, enabled);
                self.windows.insert(k, w);
                proof {
                    let r = k as int;
                    let ws = old(self)@;
                    let wv = WinV {
                        ex_style: spec_apply_click_through(ws[r].ex_style, enabled),
                        ..ws[r]
                    };
                    assert(self@ =~= ws.update(r, wv));
                    Self::lemma_wf_update(ws, r, wv);
                }
                Ok(())
            },
        }
    }

    /// Shows every pet window, as the tray icon's primary click does.
    /// Windows without the pet prefix are untouched; nothing is hidden.
    pub fn show_all(&mut self)
        requires
            spec_registry_wf(old(self)@),
        ensures
            final(self)@ == spec_show_all(old(self)@),
            spec_registry_wf(final(self)@),
    {
        let mut k: usize = 0;
        while k < self.windows.len()
            invariant
                spec_registry_wf(old(self)@),
                k <= self.windows@.len(),
                self.windows@.len() == old(self)@.len(),
                self@.len() == old(self)@.len(),
                forall|t: int|
                    0 <= t < k ==> self@[t] == (if spec_has_pet_prefix(
                        (#[trigger] old(self)@[t]).label,
                    ) {
                        WinV { visible: true, ..old(self)@[t] }
                    } else {
                        old(self)@[t]
                    }),
                forall|t: int| k <= t < self@.len() ==> self@[t] == old(self)@[t],
            decreases self.windows@.len() - k,
        {
            let ghost prev = self@;
            if label_has_pet_prefix(&self.windows[k].label) {
                let mut w = self.windows.remove(k);
                w.visible = true;
                self.windows.insert(k, w);
                proof {
                    assert(self@ =~= prev.update(
                        k as int,
                        WinV { visible: true, ..prev[k as int] },
                    ));
                }
            }
            k += 1;
        }
        proof {
            assert(self@ =~= spec_show_all(old(self)@));
            Self::lemma_wf_label_preserving_map(old(self)@, self@);
        }
    }

    /// Flips every pet window's visibility independently, as the tray
    /// menu's show/hide entry does.  Windows without the pet prefix are
    /// untouched.
    pub fn toggle_all_visibility(&mut self)
        requires
            spec_registry_wf(old(self)@),
        ensures
            final(self)@ == spec_toggle_all_visibility(old(self)@),
            spec_registry_wf(final(self)@),
    {
        let mut k: usize = 0;
        while k < self.windows.len()
            invariant
                spec_registry_wf(old(self)@),
                k <= self.windows@.len(),
                self.windows@.len() == old(self)@.len(),
                self@.len() == old(self)@.len(),
                forall|t: int|
                    0 <= t < k ==> self@[t] == (if spec_has_pet_prefix(
                        (#[trigger] old(self)@[t]).label,
                    ) {
                        WinV { visible: !old(self)@[t].visible, ..old(self)@[t] }
                    } else {
                        old(self)@[t]
                    }),
                forall|t: int| k <= t < self@.len() ==> self@[t] == old(self)@[t],
            decreases self.windows@.len() - k,
        {
            let ghost prev = self@;
            if label_has_pet_prefix(&self.windows[k].label) {
                let visible = self.windows[k].visible;
                let mut w = self.windows.remove(k);
                w.visible = !visible;
                self.windows.insert(k, w);
                proof {
                    assert(self@ =~= prev.update(
                        k as int,
                        WinV { visible: !prev[k as int].visible, ..prev[k as int] },
                    ));
                }
            }
            k += 1;
        }
        proof {
            assert(self@ =~= spec_toggle_all_visibility(old(self)@));
            Self::lemma_wf_label_preserving_map(old(self)@, self@);
        }
    }

    /// Builds the configuration to persist: one record per live window
    /// whose label carries the pet prefix, hidden ones included, with the
    /// current position and visibility.
    pub fn snapshot(&self) -> (config: SessionConfig)
        ensures
            config@ == spec_snapshot(self@),
    {
        let mut pets: Vec<PetWindowState> = Vec::new();
        proof {
            assert(self@.take(0) =~= Seq::<WinV>::empty());
            assert(pets@.map_values(|p: PetWindowState| p@) =~= Seq::<PetV>::empty());
        }
        let mut k: usize = 0;
        while k < self.windows.len()
            invariant
                k <= self.windows@.len(),
                self@.len() == self.windows@.len(),
                pets@.map_values(|p: PetWindowState| p@) == spec_snapshot(self@.take(k as int)),
            decreases self.windows@.len() - k,
        {
            if label_has_pet_prefix(&self.windows[k].label) {
                let w = &self.windows[k];
                let pet = PetWindowState::new(clone_bytes(&w.label), w.x, w.y, w.visible);
                proof {
                    assert(pets@.push(pet).map_values(|p: PetWindowState| p@) =~= pets@
                        .map_values(|p: PetWindowState| p@).push(pet@));
                }
                pets.push(pet);
            }
            proof {
                assert(self@.take(k + 1 as int) =~= self@.take(k as int).push(self@[k as int]));
                Self::lemma_snapshot_snoc(self@.take(k as int), self@[k as int]);
            }
            k += 1;
        }
        proof {
            assert(self@.take(self@.len() as int) =~= self@);
        }
        SessionConfig { pets }
    }

    /// A snapshot grows by one record exactly when the appended window is
    /// a pet window.
    pub proof fn lemma_snapshot_snoc(ws: Seq<WinV>, w: WinV)
        ensures
            spec_snapshot(ws.push(w)) == spec_snapshot(ws) + (if spec_has_pet_prefix(w.label) {
                seq![spec_pet_of(w)]
            } else {
                Seq::<PetV>::empty()
            }),
        decreases ws.len(),
    {
        let tail = if spec_has_pet_prefix(w.label) {
            seq![spec_pet_of(w)]
        } else {
            Seq::<PetV>::empty()
        };
        if ws.len() == 0 {
            assert(ws.push(w)[0] == w);
            assert(ws.push(w).drop_first() =~= Seq::<WinV>::empty());
            assert(spec_snapshot(Seq::<WinV>::empty()) == Seq::<PetV>::empty());
            assert(spec_snapshot(ws) == Seq::<PetV>::empty());
            assert(spec_snapshot(ws.push(w)) == tail + spec_snapshot(
                ws.push(w).drop_first(),
            ));
            assert(spec_snapshot(ws.push(w)) =~= spec_snapshot(ws) + tail);
        } else {
            assert(ws.push(w)[0] == ws[0]);
            assert(ws.push(w).drop_first() =~= ws.drop_first().push(w));
            Self::lemma_snapshot_snoc(ws.drop_first(), w);
            let head = if spec_has_pet_prefix(ws[0].label) {
                seq![spec_pet_of(ws[0])]
            } else {
                Seq::<PetV>::empty()
            };
            assert(spec_snapshot(ws.push(w)) == head + spec_snapshot(ws.drop_first().push(w)));
            assert(spec_snapshot(ws) == head + spec_snapshot(ws.drop_first()));
            assert((head + (spec_snapshot(ws.drop_first()) + tail)) =~= ((head + spec_snapshot(
                ws.drop_first(),
            )) + tail));
        }
    }

    /// Restores a loaded configuration at startup: an empty one yields one
    /// default pet at the fixed default position, any other one yields one
    /// window per record at its saved position, hidden again when it was
    /// saved hidden.
    pub fn restore(&mut self, config: &SessionConfig)
        requires
            spec_registry_wf(old(self)@),
            spec_config_wf(config@),
        ensures
            final(self)@ == spec_restore_config(old(self)@, config@),
            spec_registry_wf(final(self)@),
            old(self)@.len() == 0 && config@.len() == 0 ==> final(self)@ == seq![
                spec_new_window(
                    spec_default_label(),
                    DEFAULT_PET_X as int,
                    DEFAULT_PET_Y as int,
                    true,
                ),
            ],
    {
        if config.pets.len() == 0 {
            let label = default_label();
            self.create_pet_window(label, DEFAULT_PET_X, DEFAULT_PET_Y);
            proof {
                if old(self)@.len() == 0 {
                    lemma_find_label_props(old(self)@, spec_default_label());
                    assert(final(self)@ =~= seq![
                        spec_new_window(
                            spec_default_label(),
                            DEFAULT_PET_X as int,
                            DEFAULT_PET_Y as int,
                            true,
                        ),
                    ]);
                }
            }
            return;
        }
        proof {
            assert(config@.take(0) =~= Seq::<PetV>::empty());
        }
        let mut k: usize = 0;
        while k < config.pets.len()
            invariant
                k <= config.pets@.len(),
                config@.len() == config.pets@.len(),
                spec_config_wf(config@),
                self@ == spec_restore(old(self)@, config@.take(k as int)),
                spec_registry_wf(self@),
            decreases config.pets@.len() - k,
        {
            let p = &config.pets[k];
            assert(p@ == config@[k as int]);
            let created = self.create_pet_window(clone_bytes(&p.label), p.x, p.y);
            if created && !p.visible {
                let ghost mid = self@;
                self.set_visible(&p.label, false);
                proof {
                    Self::lemma_find_label_push(
                        spec_restore(old(self)@, config@.take(k as int)),
                        spec_new_window(p@.label, p@.x, p@.y, true),
                        p@.label,
                    );
                    lemma_find_label_props(
                        spec_restore(old(self)@, config@.take(k as int)),
                        p@.label,
                    );
                    assert(self@ =~= spec_restore(old(self)@, config@.take(k as int)).push(
                        spec_new_window(p@.label, p@.x, p@.y, p@.visible),
                    ));
                }
            }
            proof {
                assert(config@.take(k + 1 as int) =~= config@.take(k as int).push(
                    config@[k as int],
                ));
                Self::lemma_restore_snoc(old(self)@, config@.take(k as int), config@[k as int]);
            }
            k += 1;
        }
        proof {
            assert(config@.take(config@.len() as int) =~= config@);
        }
    }

    /// Startup restoration from the session file's content: loads the
    /// saved configuration (falling back to the empty one on malformed
    /// content) and recreates every saved pet, or the single default pet
    /// when nothing usable was saved.
    pub fn restore_saved(&mut self, content: &Vec<u8>)
        requires
            spec_registry_wf(old(self)@),
        ensures
            final(self)@ == spec_restore_config(
                old(self)@,
                crate::codec::spec_load(content@),
            ),
            spec_registry_wf(final(self)@),
    {
        let config = crate::codec::load(content);
        proof {
            crate::codec::lemma_load_wf(content@);
        }
        self.restore(&config);
    }

    /// Restoring one more record is restoring the rest and then that
    /// record.
    pub proof fn lemma_restore_snoc(ws: Seq<WinV>, ps: Seq<PetV>, p: PetV)
        ensures
            spec_restore(ws, ps.push(p)) == spec_restore_one(spec_restore(ws, ps), p),
        decreases ps.len(),
    {
        if ps.len() == 0 {
            assert(ps.push(p)[0] == p);
            assert(ps.push(p).drop_first() =~= Seq::<PetV>::empty());
            assert(spec_restore(spec_restore_one(ws, p), Seq::<PetV>::empty())
                == spec_restore_one(ws, p));
        } else {
            assert(ps.push(p)[0] == ps[0]);
            assert(ps.push(p).drop_first() =~= ps.drop_first().push(p));
            Self::lemma_restore_snoc(spec_restore_one(ws, ps[0]), ps.drop_first(), p);
            assert(spec_restore(ws, ps.push(p)) == spec_restore(
                spec_restore_one(ws, ps[0]),
                ps.drop_first().push(p),
            ));
            assert(spec_restore(ws, ps) == spec_restore(
                spec_restore_one(ws, ps[0]),
                ps.drop_first(),
            ));
        }
    }

    /// Updating an entry without changing its label preserves the
    /// registry invariant.
    pub proof fn lemma_wf_update(ws: Seq<WinV>, r: int, w: WinV)
        requires
            spec_registry_wf(ws),
            0 <= r < ws.len(),
            w.label == ws[r].label,
            i64::MIN <= w.x <= i64::MAX,
            i64::MIN <= w.y <= i64::MAX,
        ensures
            spec_registry_wf(ws.update(r, w)),
    {
        let ws2 = ws.update(r, w);
        assert(forall|t: int| 0 <= t < ws.len() ==> (#[trigger] ws2[t]).label == ws[t].label);
    }

    /// A transformation that leaves every label in place preserves the
    /// registry invariant.
    pub proof fn lemma_wf_label_preserving_map(ws: Seq<WinV>, ws2: Seq<WinV>)
        requires
            spec_registry_wf(ws),
            ws2.len() == ws.len(),
            forall|t: int| 0 <= t < ws.len() ==> (#[trigger] ws2[t]).label == ws[t].label,
            forall|t: int|
                0 <= t < ws.len() ==> (#[trigger] ws2[t]).x == ws[t].x && ws2[t].y == ws[t].y,
        ensures
            spec_registry_wf(ws2),
    {
    }

    /// Spawns one new pet at the fixed default position under a freshly
    /// drawn label, and returns that label.  The label is fresh with
    /// overwhelming probability; if it nevertheless collides with a live
    /// window's, the call is the usual no-op on collision.
    pub fn spawn_new_pet(&mut self) -> (label: Vec<u8>)
        requires
            spec_registry_wf(old(self)@),
        ensures
            final(self)@ == spec_create(
                old(self)@,
                label@,
                DEFAULT_PET_X as int,
                DEFAULT_PET_Y as int,
            ),
            spec_valid_label(label@),
            spec_has_pet_prefix(label@),
            label@.len() == 41,
            spec_registry_wf(final(self)@),
    {
        let label = crate::ident::fresh_pet_label();
        let owned = clone_bytes(&label);
        self.create_pet_window(owned, DEFAULT_PET_X, DEFAULT_PET_Y);
        label
    }

    /// The logical position last recorded for the window carrying
    /// `label`, if it is live.
    pub fn get_position(&self, label: &Vec<u8>) -> (r: Option<(i64, i64)>)
        ensures
            spec_has_label(self@, label@) ==> r == Some(
                (
                    self@[spec_find_label(self@, label@)].x as i64,
                    self@[spec_find_label(self@, label@)].y as i64,
                ),
            ),
            !spec_has_label(self@, label@) ==> r is None,
    {
        let found = self.find_window(label);
        match found {
            None => None,
            Some(k) => Some((self.windows[k].x, self.windows[k].y)),
        }
    }

    /// Whether the window carrying `label` is visible, if it is live.
    pub fn is_window_visible(&self, label: &Vec<u8>) -> (r: Option<bool>)
        ensures
            spec_has_label(self@, label@) ==> r == Some(
                self@[spec_find_label(self@, label@)].visible,
            ),
            !spec_has_label(self@, label@) ==> r is None,
    {
        let found = self.find_window(label);
        match found {
            None => None,
            Some(k) => Some(self.windows[k].visible),
        }
    }

    /// Whether the window carrying `label` currently passes mouse input
    /// through, as its style bits encode it, if it is live.
    pub fn is_window_click_through(&self, label: &Vec<u8>) -> (r: Option<bool>)
        ensures
            spec_has_label(self@, label@) ==> r == Some(
                crate::style::spec_is_click_through(
                    self@[spec_find_label(self@, label@)].ex_style,
                ),
            ),
            !spec_has_label(self@, label@) ==> r is None,
    {
        let found = self.find_window(label);
        match found {
            None => None,
            Some(k) => {
                let style = self.windows[k].ex_style;
                Some(style & crate::style::EX_STYLE_TRANSPARENT != 0)
            },
        }
    }

    /// Finding a label is unaffected by replacing an entry with one that
    /// carries the same label.
    pub proof fn lemma_find_label_update(ws: Seq<WinV>, r: int, w: WinV, label: Seq<u8>)
        requires
            0 <= r < ws.len(),
            w.label == ws[r].label,
        ensures
            spec_find_label(ws.update(r, w), label) == spec_find_label(ws, label),
        decreases ws.len(),
    {
        let ws2 = ws.update(r, w);
        assert(ws2[0].label == ws[0].label);
        if ws[0].label != label {
            if r == 0 {
                assert(ws2.drop_first() =~= ws.drop_first());
            } else {
                assert(ws2.drop_first() =~= ws.drop_first().update(r - 1, w));
                Self::lemma_find_label_update(ws.drop_first(), r - 1, w, label);
            }
        }
    }

    /// Enabling click-through and then disabling it on the same window
    /// restores that window's input-hit-testing behaviour: a window that
    /// did not pass clicks through before the two calls does not pass them
    /// through after, and no other window is touched by either call.
    pub proof fn lemma_toggle_click_through_restores(ws: Seq<WinV>, label: Seq<u8>)
        requires
            spec_has_label(ws, label),
            !crate::style::spec_is_click_through(ws[spec_find_label(ws, label)].ex_style),
        ensures
            ({
                let r = spec_find_label(ws, label);
                let (ws1, r1) = spec_set_click_through(ws, label, true, Platform::Windows);
                let (ws2, r2) = spec_set_click_through(ws1, label, false, Platform::Windows);
                &&& r1 == Ok::<(), ClickThroughError>(())
                &&& r2 == Ok::<(), ClickThroughError>(())
                &&& crate::style::spec_is_click_through(ws1[r].ex_style)
                &&& crate::style::spec_is_click_through(ws2[r].ex_style)
                    == crate::style::spec_is_click_through(ws[r].ex_style)
                &&& forall|t: int| 0 <= t < ws.len() && t != r ==> ws2[t] == ws[t]
            }),
    {
        let r = spec_find_label(ws, label);
        lemma_find_label_props(ws, label);
        let w1 = WinV { ex_style: spec_apply_click_through(ws[r].ex_style, true), ..ws[r] };
        let ws1 = ws.update(r, w1);
        Self::lemma_find_label_update(ws, r, w1, label);
        assert(spec_find_label(ws1, label) == r);
        crate::style::lemma_apply_click_through_decides(ws[r].ex_style, true);
        crate::style::lemma_apply_click_through_decides(ws1[r].ex_style, false);
    }

    /// Capability consistency for the window registry: on a platform the
    /// capability query rejects, every click-through request returns
    /// `UnsupportedPlatform` and changes nothing; on a platform it
    /// accepts, a request on any live window succeeds.
    pub proof fn lemma_registry_capability_consistency(ws: Seq<WinV>, platform: Platform)
        ensures
            !spec_click_through_supported(platform) ==> forall|label: Seq<u8>, enabled: bool|
                (#[trigger] spec_set_click_through(ws, label, enabled, platform)) == (
                ws,
                Err::<(), ClickThroughError>(ClickThroughError::UnsupportedPlatform),
                ),
            spec_click_through_supported(platform) ==> forall|label: Seq<u8>, enabled: bool|
                spec_has_label(ws, label) ==> (#[trigger] spec_set_click_through(
                    ws,
                    label,
                    enabled,
                    platform,
                )).1 == Ok::<(), ClickThroughError>(()),
    {
    }

    /// Some record in the list carries `label`.
    pub open spec fn spec_pets_has_label(ps: Seq<PetV>, label: Seq<u8>) -> bool {
        exists|i: int| 0 <= i < ps.len() && (#[trigger] ps[i]).label == label
    }

    /// Every label a snapshot mentions belongs to some live window.
    pub proof fn lemma_snapshot_membership(ws: Seq<WinV>)
        ensures
            forall|label: Seq<u8>|
                #[trigger] Self::spec_pets_has_label(spec_snapshot(ws), label)
                    ==> spec_has_label(ws, label),
        decreases ws.len(),
    {
        if ws.len() == 0 {
        } else {
            let rest = ws.drop_first();
            Self::lemma_snapshot_membership(rest);
            let snap = spec_snapshot(ws);
            let head = if spec_has_pet_prefix(ws[0].label) {
                seq![spec_pet_of(ws[0])]
            } else {
                Seq::<PetV>::empty()
            };
            assert(snap == head + spec_snapshot(rest));
            assert forall|label: Seq<u8>|
                #[trigger] Self::spec_pets_has_label(snap, label) implies spec_has_label(
                ws,
                label,
            ) by {
                let i = choose|i: int| 0 <= i < snap.len() && (#[trigger] snap[i]).label == label;
                if i < head.len() {
                    assert(ws[0].label == label);
                    lemma_find_label_props(ws, label);
                } else {
                    assert(snap[i] == spec_snapshot(rest)[i - head.len()]);
                    assert(Self::spec_pets_has_label(spec_snapshot(rest), label));
                    assert(spec_has_label(rest, label));
                    lemma_find_label_props(rest, label);
                    let t = spec_find_label(rest, label);
                    assert(ws[t + 1] == rest[t]);
                    lemma_find_label_props(ws, label);
                    if !spec_has_label(ws, label) {
                        assert(ws[t + 1].label != label);
                    }
                }
            }
        }
    }

    /// A snapshot of a well-formed registry is a well-formed configuration
    /// with unique labels.
    pub proof fn lemma_snapshot_wf(ws: Seq<WinV>)
        requires
            spec_registry_wf(ws),
        ensures
            spec_config_wf(spec_snapshot(ws)),
            crate::state::spec_labels_unique(spec_snapshot(ws)),
        decreases ws.len(),
    {
        if ws.len() > 0 {
            let rest = ws.drop_first();
            assert(forall|t: int| 0 <= t < rest.len() ==> rest[t] == ws[t + 1]);
            assert(spec_registry_wf(rest));
            Self::lemma_snapshot_wf(rest);
            Self::lemma_snapshot_membership(rest);
            let snap = spec_snapshot(ws);
            let snaprest = spec_snapshot(rest);
            let head = if spec_has_pet_prefix(ws[0].label) {
                seq![spec_pet_of(ws[0])]
            } else {
                Seq::<PetV>::empty()
            };
            assert(snap == head + snaprest);
            assert forall|i: int| 0 <= i < snap.len() implies crate::state::spec_pet_wf(
                #[trigger] snap[i],
            ) by {
                if i < head.len() {
                    assert(snap[i] == spec_pet_of(ws[0]));
                } else {
                    assert(snap[i] == snaprest[i - head.len()]);
                }
            }
            assert forall|i: int, j: int| 0 <= i < j < snap.len() implies (#[trigger] snap[i]).label
                != (#[trigger] snap[j]).label by {
                if i < head.len() {
                    assert(snap[i] == spec_pet_of(ws[0]));
                    assert(snap[j] == snaprest[j - head.len()]);
                    if snap[j].label == ws[0].label {
                        assert(Self::spec_pets_has_label(snaprest, ws[0].label));
                        assert(spec_has_label(rest, ws[0].label));
                        lemma_find_label_props(rest, ws[0].label);
                        let t = spec_find_label(rest, ws[0].label);
                        assert(ws[t + 1] == rest[t]);
                        assert(ws[t + 1].label == ws[0].label);
                    }
                } else {
                    assert(snap[i] == snaprest[i - head.len()]);
                    assert(snap[j] == snaprest[j - head.len()]);
                }
            }
        }
    }

    /// Restoring records whose labels are fresh and mutually distinct
    /// appends exactly one new window per record, in order, with the saved
    /// position and visibility and a fresh style.
    pub proof fn lemma_restore_fresh(ws: Seq<WinV>, ps: Seq<PetV>)
        requires
            crate::state::spec_labels_unique(ps),
            forall|k: int| 0 <= k < ps.len() ==> !spec_has_label(ws, (#[trigger] ps[k]).label),
        ensures
            spec_restore(ws, ps) == ws + ps.map_values(
                |p: PetV| spec_new_window(p.label, p.x, p.y, p.visible),
            ),
        decreases ps.len(),
    {
        let f = |p: PetV| spec_new_window(p.label, p.x, p.y, p.visible);
        if ps.len() == 0 {
            assert(spec_restore(ws, ps) == ws);
            assert(ws + ps.map_values(f) =~= ws);
        } else {
            let p0 = ps[0];
            let rest = ps.drop_first();
            assert(!spec_has_label(ws, p0.label));
            let ws1 = ws.push(spec_new_window(p0.label, p0.x, p0.y, p0.visible));
            assert(spec_restore_one(ws, p0) == ws1);
            assert(forall|t: int| 0 <= t < rest.len() ==> rest[t] == ps[t + 1]);
            assert(crate::state::spec_labels_unique(rest));
            assert forall|k: int| 0 <= k < rest.len() implies !spec_has_label(
                ws1,
                (#[trigger] rest[k]).label,
            ) by {
                assert(rest[k] == ps[k + 1]);
                assert(!spec_has_label(ws, ps[k + 1].label));
                assert(ps[k + 1].label != p0.label);
                lemma_find_label_props(ws, ps[k + 1].label);
                Self::lemma_find_label_push(
                    ws,
                    spec_new_window(p0.label, p0.x, p0.y, p0.visible),
                    ps[k + 1].label,
                );
            }
            Self::lemma_restore_fresh(ws1, rest);
            assert(spec_restore(ws, ps) == spec_restore(ws1, rest));
            assert(ws1 + rest.map_values(f) =~= ws + ps.map_values(f));
        }
    }

    /// Session round trip: snapshotting a well-formed registry with at
    /// least one pet window, saving, loading the saved bytes, and
    /// restoring into a fresh session reproduces exactly one window per
    /// snapshotted pet, matching by label, with the saved position and
    /// visibility (and click-through reset, which is not persisted).
    pub proof fn lemma_session_round_trip(ws: Seq<WinV>)
        requires
            spec_registry_wf(ws),
            spec_snapshot(ws).len() > 0,
        ensures
            crate::codec::spec_parse_config(crate::codec::spec_enc_config(spec_snapshot(ws)))
                == Some(spec_snapshot(ws)),
            spec_restore_config(
                Seq::<WinV>::empty(),
                crate::codec::spec_load(crate::codec::spec_enc_config(spec_snapshot(ws))),
            ) == spec_snapshot(ws).map_values(
                |p: PetV| spec_new_window(p.label, p.x, p.y, p.visible),
            ),
    {
        let snap = spec_snapshot(ws);
        Self::lemma_snapshot_wf(ws);
        crate::codec::lemma_config_round_trip(snap);
        assert(crate::codec::spec_load(crate::codec::spec_enc_config(snap)) == snap);
        assert forall|k: int| 0 <= k < snap.len() implies !spec_has_label(
            Seq::<WinV>::empty(),
            (#[trigger] snap[k]).label,
        ) by {
            assert(spec_find_label(Seq::<WinV>::empty(), snap[k].label) == -1);
        }
        Self::lemma_restore_fresh(Seq::<WinV>::empty(), snap);
        assert(Seq::<WinV>::empty() + snap.map_values(
            |p: PetV| spec_new_window(p.label, p.x, p.y, p.visible),
        ) =~= snap.map_values(|p: PetV| spec_new_window(p.label, p.x, p.y, p.visible)));
    }

    /// Finding a label after pushing an entry: the entry's own label is
    /// found at the end; any other label is found where it was.
    pub proof fn lemma_find_label_push(ws: Seq<WinV>, w: WinV, label: Seq<u8>)
        ensures
            w.label == label && spec_find_label(ws, label) < 0 ==> spec_find_label(
                ws.push(w),
                label,
            ) == ws.len(),
            spec_find_label(ws, label) >= 0 ==> spec_find_label(ws.push(w), label)
                == spec_find_label(ws, label),
            w.label != label && spec_find_label(ws, label) < 0 ==> spec_find_label(
                ws.push(w),
                label,
            ) == -1,
        decreases ws.len(),
    {
        if ws.len() == 0 {
            assert(ws.push(w)[0] == w);
            assert(ws.push(w).drop_first() =~= Seq::<WinV>::empty());
            assert(spec_find_label(Seq::<WinV>::empty(), label) == -1);
        } else {
            assert(ws.push(w)[0] == ws[0]);
            assert(ws.push(w).drop_first() =~= ws.drop_first().push(w));
            Self::lemma_find_label_push(ws.drop_first(), w, label);
        }
    }
}

} // verus!
