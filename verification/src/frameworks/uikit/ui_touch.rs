//! `UITouch`: which touches are in play, which of them a gesture
//! recognizer has taken over, and the choices made when the host reports
//! fingers going down, moving and lifting. Hit-testing, the messages to
//! the guest's views and the touch objects' guest memory stay with the
//! caller, which hands the answers it gets back to these functions.
use crate::objc::objects::id;
use crate::text::{begins_with, contains_run, str_begins_with, str_contains, str_eq, str_is};
use std::collections::HashMap;
use std::collections::HashSet;
use vstd::prelude::*;
use vstd::string::{StrSliceExecFns, StringSliceAdditionalSpecFns};

verus! {

/// The host's identifier of a finger on the screen.
pub type FingerId = u64;

/// `UITouchPhase`.
pub type UITouchPhase = i32;

pub const UITouchPhaseBegan: UITouchPhase = 0;

pub const UITouchPhaseMoved: UITouchPhase = 1;

pub const UITouchPhaseStationary: UITouchPhase = 2;

pub const UITouchPhaseEnded: UITouchPhase = 3;

/// The phase a touch shows while its view is told it was cancelled: not a
/// public phase, so that guests polling `phase` see it neither begin, move
/// nor end.
pub const UITouchPhaseCancelledByGesture: UITouchPhase = 4;

/// The touches in play.
pub struct State {
    /// The touch object of each finger that is down.
    pub current_touches: HashMap<FingerId, id>,
    /// The touches whose delivery to views stopped when a gesture
    /// recognizer began; the recognizer still gets them.
    cancelled_by_gesture: HashSet<id>,
}

impl State {
    /// The touch of each finger that is down.
    pub closed spec fn touches(&self) -> Map<FingerId, id> {
        self.current_touches@
    }

    /// The touches taken over by a gesture recognizer.
    pub closed spec fn cancelled(&self) -> Set<id> {
        self.cancelled_by_gesture@
    }

    /// No finger down, nothing cancelled.
    pub fn new() -> (r: Self)
        ensures
            r.touches() == Map::<FingerId, id>::empty(),
            r.cancelled() == Set::<id>::empty(),
    {
        State { current_touches: HashMap::new(), cancelled_by_gesture: HashSet::new() }
    }

    /// The touch of `finger`, if it is down.
    pub fn touch_for_finger(&self, finger: FingerId) -> (r: Option<id>)
        ensures
            r == (if self.touches().contains_key(finger) {
                Some(self.touches()[finger])
            } else {
                None::<id>
            }),
    {
        match self.current_touches.get(&finger) {
            Some(t) => Some(*t),
            None => None,
        }
    }

    /// Whether a gesture recognizer has taken `touch` over.
    pub fn is_cancelled(&self, touch: id) -> (r: bool)
        ensures
            r == self.cancelled().contains(touch),
    {
        self.cancelled_by_gesture.contains(&touch)
    }

    /// Records `touch` as the touch of `finger`, which has just gone down.
    /// A finger still tracked lost its lift somewhere: its old touch is
    /// handed back to be cancelled and released, and forgotten here.
    pub fn begin_touch(&mut self, finger: FingerId, touch: id) -> (r: Option<id>)
        ensures
            r == (if old(self).touches().contains_key(finger) {
                Some(old(self).touches()[finger])
            } else {
                None::<id>
            }),
            final(self).touches() == old(self).touches().insert(finger, touch),
            final(self).cancelled() == match r {
                Some(stale) => old(self).cancelled().remove(stale),
                None => old(self).cancelled(),
            },
    {
        let stale = match self.current_touches.remove(&finger) {
            Some(t) => {
                self.cancelled_by_gesture.remove(&t);
                Some(t)
            },
            None => None,
        };
        self.current_touches.insert(finger, touch);
        assert(self.current_touches@ =~= old(self).current_touches@.insert(finger, touch));
        stale
    }

    /// Forgets `finger`, whose touch has been handed to the views as ended,
    /// and that touch's cancellation; hands back the finger's touch to be
    /// released.
    pub fn end_touch(&mut self, finger: FingerId, touch: id) -> (r: Option<id>)
        ensures
            r == (if old(self).touches().contains_key(finger) {
                Some(old(self).touches()[finger])
            } else {
                None::<id>
            }),
            final(self).touches() == old(self).touches().remove(finger),
            final(self).cancelled() == old(self).cancelled().remove(touch),
    {
        self.cancelled_by_gesture.remove(&touch);
        let r = self.current_touches.remove(&finger);
        assert(self.current_touches@ =~= old(self).current_touches@.remove(finger));
        r
    }

    /// Forgets `finger` and the cancellation of `touch`, a touch found stale
    /// or turned away; hands back the finger's touch.
    pub fn forget_touch(&mut self, finger: FingerId, touch: id) -> (r: Option<id>)
        ensures
            r == (if old(self).touches().contains_key(finger) {
                Some(old(self).touches()[finger])
            } else {
                None::<id>
            }),
            final(self).touches() == old(self).touches().remove(finger),
            final(self).cancelled() == old(self).cancelled().remove(touch),
    {
        self.end_touch(finger, touch)
    }

    /// Marks `touches` as taken over by a gesture recognizer, and gives
    /// those not taken over before, in order and once each: their views are
    /// to be told they were cancelled.
    pub fn cancel_for_gesture(&mut self, touches: &[id]) -> (r: Vec<id>)
        ensures
            final(self).touches() == old(self).touches(),
            final(self).cancelled() == old(self).cancelled() + touches@.to_set(),
            r@ == newly_cancelled(old(self).cancelled(), touches@),
    {
        let mut out: Vec<id> = Vec::new();
        let mut i: usize = 0;
        while i < touches.len()
            invariant
                0 <= i <= touches.len(),
                self.current_touches@ == old(self).current_touches@,
                self.cancelled_by_gesture@ == old(self).cancelled_by_gesture@ + touches@.subrange(
                    0,
                    i as int,
                ).to_set(),
                out@ == newly_cancelled(old(self).cancelled(), touches@.subrange(0, i as int)),
            decreases touches.len() - i,
        {
            let t = touches[i];
            let ghost prefix = touches@.subrange(0, i as int);
            let ghost next = touches@.subrange(0, i as int + 1);
            assert(next.drop_last() =~= prefix);
            assert(next.last() == t);
            proof {
                assert(next.to_set() =~= prefix.to_set().insert(t)) by {
                    assert forall|x: id| next.to_set().contains(x) == prefix.to_set().insert(t).contains(x) by {
                        if next.contains(x) {
                            let k = choose|k: int| 0 <= k < next.len() && next[k] == x;
                            if k < prefix.len() {
                                assert(prefix[k] == x);
                            }
                        }
                        if prefix.contains(x) {
                            let k = choose|k: int| 0 <= k < prefix.len() && prefix[k] == x;
                            assert(next[k] == x);
                        }
                        if x == t {
                            assert(next[i as int] == x);
                        }
                    }
                }
            }
            if self.cancelled_by_gesture.insert(t) {
                out.push(t);
            }
            assert(self.cancelled_by_gesture@ =~= old(self).cancelled_by_gesture@ + next.to_set());
            i = i + 1;
        }
        assert(touches@.subrange(0, i as int) =~= touches@);
        out
    }

    /// The touches among `touches` whose views still get them, in order.
    pub fn deliverable(&self, touches: &[id]) -> (r: Vec<id>)
        ensures
            r@ == touches@.filter(|t: id| !self.cancelled().contains(t)),
    {
        let ghost keep = |t: id| !self.cancelled().contains(t);
        let mut out: Vec<id> = Vec::new();
        let mut i: usize = 0;
        while i < touches.len()
            invariant
                0 <= i <= touches.len(),
                keep == (|t: id| !self.cancelled().contains(t)),
                out@ == touches@.subrange(0, i as int).filter(keep),
            decreases touches.len() - i,
        {
            let t = touches[i];
            proof {
                let next = touches@.subrange(0, i as int + 1);
                assert(next.drop_last() =~= touches@.subrange(0, i as int));
                reveal(Seq::filter);
            }
            if !self.cancelled_by_gesture.contains(&t) {
                out.push(t);
            }
            i = i + 1;
        }
        assert(touches@.subrange(0, i as int) =~= touches@);
        out
    }
}

/// The touches of `ts` not in `before` nor earlier in `ts`, in order.
pub open spec fn newly_cancelled(before: Set<id>, ts: Seq<id>) -> Seq<id>
    decreases ts.len(),
{
    if ts.len() == 0 {
        Seq::empty()
    } else {
        let prev = newly_cancelled(before, ts.drop_last());
        if before.contains(ts.last()) || ts.drop_last().contains(ts.last()) {
            prev
        } else {
            prev.push(ts.last())
        }
    }
}

/// What becomes of a finger that lands on a view that already has one.
#[derive(Clone, Copy, PartialEq, Eq, Debug)]
pub enum SecondFinger {
    /// The view takes it.
    Deliver,
    /// The view's old touches are stale: cancel them, then deliver.
    CancelStale,
    /// The view keeps its touch and the newcomer is dropped.
    Drop,
}

/// A view that refuses multi-touch (and is not a game view allowed it)
/// and already has a finger keeps that finger: the newcomer is dropped,
/// unless the view's other touches are stale, which are then cancelled.
pub fn second_finger(
    multiple_touch_enabled: bool,
    game_view_multitouch: bool,
    view_has_touch: bool,
    stale_touches_on_view: bool,
) -> (r: SecondFinger)
    ensures
        r == (if !multiple_touch_enabled && !game_view_multitouch && view_has_touch {
            if stale_touches_on_view {
                SecondFinger::CancelStale
            } else {
                SecondFinger::Drop
            }
        } else {
            SecondFinger::Deliver
        }),
{
    if !multiple_touch_enabled && !game_view_multitouch && view_has_touch {
        if stale_touches_on_view {
            SecondFinger::CancelStale
        } else {
            SecondFinger::Drop
        }
    } else {
        SecondFinger::Deliver
    }
}

/// The views of `pairs` (touch, view), each once, in order of first
/// appearance.
pub open spec fn views_in_order(pairs: Seq<(id, id)>) -> Seq<id>
    decreases pairs.len(),
{
    if pairs.len() == 0 {
        Seq::empty()
    } else {
        let prev = views_in_order(pairs.drop_last());
        if prev.contains(pairs.last().1) {
            prev
        } else {
            prev.push(pairs.last().1)
        }
    }
}

/// The touches of `pairs` that went to `view`, in order.
pub open spec fn touches_on(pairs: Seq<(id, id)>, view: id) -> Seq<id>
    decreases pairs.len(),
{
    if pairs.len() == 0 {
        Seq::empty()
    } else {
        let prev = touches_on(pairs.drop_last(), view);
        if pairs.last().1 == view {
            prev.push(pairs.last().0)
        } else {
            prev
        }
    }
}

/// Whether `groups` gathers the touches of `pairs` by view, the views in
/// order of first appearance.
pub open spec fn grouped(groups: Seq<(id, Seq<id>)>, pairs: Seq<(id, id)>) -> bool {
    &&& groups.len() == views_in_order(pairs).len()
    &&& forall|k: int| 0 <= k < groups.len() ==> #[trigger] groups[k].0 == views_in_order(pairs)[k]
    &&& forall|k: int| 0 <= k < groups.len() ==> #[trigger] groups[k].1 == touches_on(pairs, groups[k].0)
}

/// The views of `pairs` are each listed once, and a view without a pair
/// has no touches.
pub proof fn lemma_views_in_order(pairs: Seq<(id, id)>, v: id)
    ensures
        views_in_order(pairs).no_duplicates(),
        !views_in_order(pairs).contains(v) ==> touches_on(pairs, v) == Seq::<id>::empty(),
    decreases pairs.len(),
{
    if pairs.len() > 0 {
        lemma_views_in_order(pairs.drop_last(), v);
        let prev = views_in_order(pairs.drop_last());
        if !prev.contains(pairs.last().1) {
            assert forall|a: int, b: int| 0 <= a < b < prev.len() + 1 implies prev.push(
                pairs.last().1,
            )[a] != prev.push(pairs.last().1)[b] by {
                if b == prev.len() {
                    assert(prev[a] == prev.push(pairs.last().1)[a]);
                }
            }
            if !views_in_order(pairs).contains(v) {
                assert(views_in_order(pairs)[prev.len() as int] == pairs.last().1);
                assert forall|k: int| 0 <= k < prev.len() implies prev[k] != v by {
                    assert(views_in_order(pairs)[k] == prev[k]);
                }
            }
        }
    }
}

/// A view's group, once the view is known.
fn find_group(groups: &Vec<(id, Vec<id>)>, view: id) -> (r: Option<usize>)
    ensures
        match r {
            Some(k) => k < groups@.len() && groups@[k as int].0 == view,
            None => forall|j: int| 0 <= j < groups@.len() ==> groups@[j].0 != view,
        },
{
    let mut k: usize = 0;
    while k < groups.len()
        invariant
            0 <= k <= groups.len(),
            forall|j: int| 0 <= j < k ==> groups@[j].0 != view,
        decreases groups.len() - k,
    {
        if groups[k].0 == view {
            return Some(k);
        }
        k = k + 1;
    }
    None
}

/// The groups as the contracts speak of them.
pub open spec fn groups_view(groups: Seq<(id, Vec<id>)>) -> Seq<(id, Seq<id>)> {
    groups.map_values(|g: (id, Vec<id>)| (g.0, g.1@))
}

/// Gathers the touches of `pairs` (touch, view) by view, so that each view
/// is sent its touches in one message.
pub fn group_by_view(pairs: &[(id, id)]) -> (r: Vec<(id, Vec<id>)>)
    ensures
        grouped(groups_view(r@), pairs@),
{
    let mut groups: Vec<(id, Vec<id>)> = Vec::new();
    let mut i: usize = 0;
    while i < pairs.len()
        invariant
            0 <= i <= pairs.len(),
            grouped(groups_view(groups@), pairs@.subrange(0, i as int)),
        decreases pairs.len() - i,
    {
        let (touch, view) = pairs[i];
        let ghost prefix = pairs@.subrange(0, i as int);
        let ghost next = pairs@.subrange(0, i as int + 1);
        let ghost before = groups_view(groups@);
        proof {
            assert(next.drop_last() =~= prefix);
            assert(next.last() == (touch, view));
            lemma_views_in_order(prefix, view);
        }
        match find_group(&groups, view) {
            Some(k) => {
                assert(before[k as int].0 == view);
                assert(views_in_order(prefix)[k as int] == view);
                assert(views_in_order(prefix).contains(view));
                assert(views_in_order(next) == views_in_order(prefix));
                let (v0, mut list) = groups.remove(k);
                list.push(touch);
                groups.insert(k, (v0, list));
                proof {
                    let after = groups_view(groups@);
                    assert(after.len() == before.len());
                    assert forall|j: int| 0 <= j < after.len() implies #[trigger] after[j].0
                        == views_in_order(next)[j] by {
                        if j != k {
                            assert(after[j] == before[j]);
                        }
                    }
                    assert forall|j: int| 0 <= j < after.len() implies #[trigger] after[j].1
                        == touches_on(next, after[j].0) by {
                        if j != k {
                            assert(after[j] == before[j]);
                            assert(views_in_order(prefix)[j] != views_in_order(prefix)[k as int]);
                        } else {
                            assert(after[j].1 =~= before[j].1.push(touch));
                        }
                    }
                }
            },
            None => {
                proof {
                    assert forall|j: int| 0 <= j < views_in_order(prefix).len() implies views_in_order(
                        prefix,
                    )[j] != view by {
                        assert(before[j].0 == views_in_order(prefix)[j]);
                    }
                    assert(!views_in_order(prefix).contains(view));
                }
                let mut list: Vec<id> = Vec::new();
                list.push(touch);
                groups.push((view, list));
                proof {
                    let after = groups_view(groups@);
                    assert(views_in_order(next) == views_in_order(prefix).push(view));
                    assert forall|j: int| 0 <= j < after.len() implies #[trigger] after[j].0
                        == views_in_order(next)[j] by {
                        if j < before.len() {
                            assert(after[j] == before[j]);
                        }
                    }
                    assert forall|j: int| 0 <= j < after.len() implies #[trigger] after[j].1
                        == touches_on(next, after[j].0) by {
                        if j < before.len() {
                            assert(after[j] == before[j]);
                            assert(views_in_order(prefix)[j] != view);
                        } else {
                            assert(touches_on(prefix, view) == Seq::<id>::empty());
                            assert(after[j].1 =~= seq![touch]);
                        }
                    }
                }
            },
        }
        i = i + 1;
    }
    assert(pairs@.subrange(0, i as int) =~= pairs@);
    groups
}

/// The bytes of a string.
pub open spec fn text(s: &str) -> Seq<u8> {
    s.spec_bytes()
}

/// Whether a view class is one of the OpenGL or game-engine views
/// (Cocos2d, Unity and the like) that expect game coordinates and
/// several fingers.
pub open spec fn gl_or_game_view_name(n: Seq<u8>) -> bool {
    ||| n == text("CCGLView")
    ||| n == text("EAGLView")
    ||| n == text("CCEAGLView")
    ||| n == text("GLKView")
    ||| n == text("Cocos2dxGLView")
    ||| n == text("Cocos2dView")
    ||| n == text("DirectorView")
    ||| n == text("CCUIViewWrapper")
    ||| contains_run(n, text("EAGL"))
    ||| contains_run(n, text("GLView"))
    ||| contains_run(n, text("Cocos"))
    ||| contains_run(n, text("CCGL"))
    ||| contains_run(n, text("Unity"))
    ||| contains_run(n, text("UnityView"))
    ||| contains_run(n, text("UnityGLView"))
    ||| contains_run(n, text("UnityRenderingView"))
    ||| contains_run(n, text("RenderView"))
    ||| contains_run(n, text("GameView"))
    ||| contains_run(n, text("RootView"))
}

/// Whether a view class is an OpenGL or game-engine view.
pub fn is_gl_or_game_view_name(class_name: &str) -> (r: bool)
    ensures
        r == gl_or_game_view_name(class_name.spec_bytes()),
{
    str_is(class_name, "CCGLView") || str_is(class_name, "EAGLView") || str_is(
        class_name,
        "CCEAGLView",
    ) || str_is(class_name, "GLKView") || str_is(class_name, "Cocos2dxGLView") || str_is(
        class_name,
        "Cocos2dView",
    ) || str_is(class_name, "DirectorView") || str_is(class_name, "CCUIViewWrapper")
        || str_contains(class_name, "EAGL") || str_contains(class_name, "GLView") || str_contains(
        class_name,
        "Cocos",
    ) || str_contains(class_name, "CCGL") || str_contains(class_name, "Unity") || str_contains(
        class_name,
        "UnityView",
    ) || str_contains(class_name, "UnityGLView") || str_contains(
        class_name,
        "UnityRenderingView",
    ) || str_contains(class_name, "RenderView") || str_contains(class_name, "GameView")
        || str_contains(class_name, "RootView")
}

/// Whether Cocos2d's own touch messages (`ccTouchesBegan:withEvent:` and
/// the like) are sent too: never when turned off, always when forced, and
/// otherwise to game views and to Cocos2d's nodes (`CC` classes, layers,
/// scenes and menus).
pub open spec fn cocos_aliases_enabled(disabled: bool, forced: bool, n: Seq<u8>) -> bool {
    if disabled {
        false
    } else if forced {
        true
    } else {
        gl_or_game_view_name(n) || begins_with(n, text("CC")) || contains_run(n, text("Layer"))
            || contains_run(n, text("Scene")) || contains_run(n, text("Menu"))
    }
}

/// Whether Cocos2d's touch messages go to a view of class `class_name`
/// (empty for no view), given the switches that turn them off or force
/// them.
pub fn cocos_touch_aliases_enabled(disabled: bool, forced: bool, class_name: &str) -> (r: bool)
    ensures
        r == cocos_aliases_enabled(disabled, forced, class_name.spec_bytes()),
{
    if disabled {
        return false;
    }
    if forced {
        return true;
    }
    is_gl_or_game_view_name(class_name) || str_begins_with(class_name, "CC") || str_contains(
        class_name,
        "Layer",
    ) || str_contains(class_name, "Scene") || str_contains(class_name, "Menu")
}

/// The Cocos2d selectors for a touch phase (`began`, `moved`, `ended` or
/// `cancelled`): the one for all touches and the one for a single touch.
pub open spec fn alias_selectors(phase: Seq<u8>) -> Option<(&'static str, &'static str)> {
    if phase == text("began") {
        Some(("ccTouchesBegan:withEvent:", "ccTouchBegan:withEvent:"))
    } else if phase == text("moved") {
        Some(("ccTouchesMoved:withEvent:", "ccTouchMoved:withEvent:"))
    } else if phase == text("ended") {
        Some(("ccTouchesEnded:withEvent:", "ccTouchEnded:withEvent:"))
    } else if phase == text("cancelled") {
        Some(("ccTouchesCancelled:withEvent:", "ccTouchCancelled:withEvent:"))
    } else {
        None
    }
}

/// The Cocos2d selectors for a touch phase.
pub fn cocos_alias_selectors(phase: &str) -> (r: Option<(&'static str, &'static str)>)
    ensures
        r == alias_selectors(phase.spec_bytes()),
{
    if str_is(phase, "began") {
        Some(("ccTouchesBegan:withEvent:", "ccTouchBegan:withEvent:"))
    } else if str_is(phase, "moved") {
        Some(("ccTouchesMoved:withEvent:", "ccTouchMoved:withEvent:"))
    } else if str_is(phase, "ended") {
        Some(("ccTouchesEnded:withEvent:", "ccTouchEnded:withEvent:"))
    } else if str_is(phase, "cancelled") {
        Some(("ccTouchesCancelled:withEvent:", "ccTouchCancelled:withEvent:"))
    } else {
        None
    }
}

/// Whether touch locations of an app are turned from the portrait screen
/// into the landscape coordinates of its game view: so for the landscape
/// Source games, never for the portrait one, and otherwise where one of
/// the remapping switches is set.
pub open spec fn landscape_touch_remap(bundle: Seq<u8>, switch_set: bool) -> bool {
    if bundle == text("at.source.veggie1") || bundle == text("at.source.potato3D") || bundle
        == text("at.source.potpan") {
        true
    } else if bundle == text("at.source.tomzom") {
        false
    } else {
        switch_set
    }
}

/// Whether touch locations of the app `bundle_identifier` are remapped to
/// landscape.
pub fn should_use_landscape_touch_remap(bundle_identifier: &str, switch_set: bool) -> (r: bool)
    ensures
        r == landscape_touch_remap(bundle_identifier.spec_bytes(), switch_set),
{
    if str_is(bundle_identifier, "at.source.veggie1") || str_is(
        bundle_identifier,
        "at.source.potato3D",
    ) || str_is(bundle_identifier, "at.source.potpan") {
        true
    } else if str_is(bundle_identifier, "at.source.tomzom") {
        false
    } else {
        switch_set
    }
}

/// Whether a touch located in a view is remapped: where remapping is on,
/// for a game view.
pub fn should_remap_touch_location_for_view(remap: bool, view_is_nil: bool, class_name: &str) -> (r:
    bool)
    ensures
        r == (remap && !view_is_nil && gl_or_game_view_name(class_name.spec_bytes())),
{
    if !remap || view_is_nil {
        return false;
    }
    is_gl_or_game_view_name(class_name)
}

/// Whether a view that refuses multi-touch still gets several fingers:
/// never when single touch is forced, always when multi-touch is forced,
/// and otherwise for game views.
pub fn cocos_should_allow_multitouch(force_single: bool, force_multi: bool, class_name: &str) -> (r:
    bool)
    ensures
        r == (!force_single && (force_multi || gl_or_game_view_name(class_name.spec_bytes()))),
{
    if force_single {
        return false;
    }
    if force_multi {
        return true;
    }
    is_gl_or_game_view_name(class_name)
}

/// Once a gesture recognizer has taken touches over, none of them is
/// delivered to views again: whatever was cancelled before, filtering
/// `touches` by what is cancelled after `cancel_for_gesture(touches)`
/// leaves nothing.
pub proof fn law_cancelled_touches_are_not_delivered(before: Set<id>, touches: Seq<id>)
    ensures
        touches.filter(|t: id| !(before + touches.to_set()).contains(t)) == Seq::<id>::empty(),
{
    let after = before + touches.to_set();
    let kept = touches.filter(|t: id| !after.contains(t));
    assert forall|k: int| 0 <= k < touches.len() implies after.contains(#[trigger] touches[k]) by {
        assert(touches.to_set().contains(touches[k]));
    }
    assert(kept.len() == 0) by {
        if kept.len() > 0 {
            let pred = |t: id| !after.contains(t);
            touches.lemma_filter_pred(pred, 0);
            assert(kept.contains(kept[0]));
            touches.lemma_filter_contains_rev(pred, kept[0]);
            let k = choose|k: int| 0 <= k < touches.len() && touches[k] == kept[0];
            assert(after.contains(touches[k]));
        }
    }
    assert(kept =~= Seq::<id>::empty());
}

/// A finger that goes down reads back its new touch, and lifting it leaves
/// no touch for it, whatever else is in play.
pub proof fn law_touch_reads_back(touches: Map<FingerId, id>, finger: FingerId, touch: id)
    ensures
        touches.insert(finger, touch).contains_key(finger),
        touches.insert(finger, touch)[finger] == touch,
        !touches.insert(finger, touch).remove(finger).contains_key(finger),
{
}

/// The bundles whose touches are always scaled to the game's size.
pub open spec fn always_scaled_bundle(bundle_identifier: Seq<char>) -> bool {
    bundle_identifier == "at.source.veggie1"@ || bundle_identifier == "at.source.potato3D"@
        || bundle_identifier == "at.source.potpan"@
}

/// The name of the touch remapping mode: the one set for all engines if
/// set; else `scale` for the bundles always scaled; else the one set for
/// Cocos, Unity or any engine, in that order of preference; else `scale`.
pub open spec fn touch_mode_name_spec(
    explicit: Option<Seq<char>>,
    bundle_identifier: Seq<char>,
    cocos: Option<Seq<char>>,
    unity: Option<Seq<char>>,
    engine: Option<Seq<char>>,
) -> Seq<char> {
    match explicit {
        Some(m) => m,
        None => if always_scaled_bundle(bundle_identifier) {
            "scale"@
        } else {
            match cocos {
                Some(m) => m,
                None => match unity {
                    Some(m) => m,
                    None => match engine {
                        Some(m) => m,
                        None => "scale"@,
                    },
                },
            }
        },
    }
}

fn opt_view(s: Option<&str>) -> (r: Option<String>)
    ensures
        match s {
            Some(t) => r matches Some(v) && v@ == t@,
            None => r is None,
        },
{
    match s {
        Some(t) => Some(t.to_owned()),
        None => None,
    }
}

/// Chooses the touch remapping mode's name (see `touch_mode_name_spec`).
pub fn touch_mode_name(
    explicit: Option<&str>,
    bundle_identifier: &str,
    cocos: Option<&str>,
    unity: Option<&str>,
    engine: Option<&str>,
) -> (r: String)
    ensures
        r@ == touch_mode_name_spec(
            match explicit {
                Some(m) => Some(m@),
                None => None,
            },
            bundle_identifier@,
            match cocos {
                Some(m) => Some(m@),
                None => None,
            },
            match unity {
                Some(m) => Some(m@),
                None => None,
            },
            match engine {
                Some(m) => Some(m@),
                None => None,
            },
        ),
{
    match opt_view(explicit) {
        Some(m) => {
            return m;
        },
        None => {},
    }
    if str_eq(bundle_identifier, "at.source.veggie1") || str_eq(bundle_identifier, "at.source.potato3D")
        || str_eq(bundle_identifier, "at.source.potpan") {
        return "scale".to_owned();
    }
    match opt_view(cocos) {
        Some(m) => m,
        None => match opt_view(unity) {
            Some(m) => m,
            None => match opt_view(engine) {
                Some(m) => m,
                None => "scale".to_owned(),
            },
        },
    }
}

/// How a touch point is carried from the view's coordinates to the game's.
#[derive(Clone, Copy, Debug, PartialEq, Eq)]
pub enum TouchRemapMode {
    /// Unchanged (`identity` or `none`).
    Identity,
    /// Rotated to the right (`right`).
    Right,
    /// Rotated to the right and mirrored horizontally (`right-flip-x`).
    RightFlipX,
    /// Rotated to the left (`left`).
    Left,
    /// Rotated to the left and mirrored horizontally (`left-flip-x`).
    LeftFlipX,
    /// Mirrored horizontally (`flip-x`).
    FlipX,
    /// Mirrored vertically (`flip-y`).
    FlipY,
    /// Scaled to 1024 by 768 (`scale-1024x768`).
    Scale1024x768,
    /// Scaled to the game's size (`scale`, `scale-480x320` and any other
    /// name).
    Scale,
}

/// The mode a name selects.
pub open spec fn touch_remap_mode_spec(name: Seq<char>) -> TouchRemapMode {
    if name == "identity"@ || name == "none"@ {
        TouchRemapMode::Identity
    } else if name == "right"@ {
        TouchRemapMode::Right
    } else if name == "right-flip-x"@ {
        TouchRemapMode::RightFlipX
    } else if name == "left"@ {
        TouchRemapMode::Left
    } else if name == "left-flip-x"@ {
        TouchRemapMode::LeftFlipX
    } else if name == "flip-x"@ {
        TouchRemapMode::FlipX
    } else if name == "flip-y"@ {
        TouchRemapMode::FlipY
    } else if name == "scale-1024x768"@ {
        TouchRemapMode::Scale1024x768
    } else {
        TouchRemapMode::Scale
    }
}

/// Reads a remapping mode's name.
pub fn touch_remap_mode(name: &str) -> (r: TouchRemapMode)
    ensures
        r == touch_remap_mode_spec(name@),
{
    if str_eq(name, "identity") || str_eq(name, "none") {
        TouchRemapMode::Identity
    } else if str_eq(name, "right") {
        TouchRemapMode::Right
    } else if str_eq(name, "right-flip-x") {
        TouchRemapMode::RightFlipX
    } else if str_eq(name, "left") {
        TouchRemapMode::Left
    } else if str_eq(name, "left-flip-x") {
        TouchRemapMode::LeftFlipX
    } else if str_eq(name, "flip-x") {
        TouchRemapMode::FlipX
    } else if str_eq(name, "flip-y") {
        TouchRemapMode::FlipY
    } else if str_eq(name, "scale-1024x768") {
        TouchRemapMode::Scale1024x768
    } else {
        TouchRemapMode::Scale
    }
}

/// What becomes of a callback that a touch handler left pending.
#[derive(Clone, Copy, Debug, PartialEq, Eq)]
pub enum PendingCallback {
    /// Nothing is done, and the pending callback stays recorded.
    Keep,
    /// The record is cleared and nothing is sent.
    Discard,
    /// The record is cleared and the selector sent to the target, with the
    /// sender as argument where the selector takes one.
    Send { target: id, selector: u32, sender: id, with_sender: bool },
}

/// The bundles whose touch handlers leave callbacks pending.
pub open spec fn pending_callback_bundle(bundle_identifier: Seq<char>) -> bool {
    bundle_identifier == "com.apprisetec9.minionjump"@ || bundle_identifier
        == "com.risinghighapps.kingdomprincepro"@
}

/// Whether a selector's name ends with a colon, so that it takes an
/// argument.
pub open spec fn takes_argument(name: Seq<char>) -> bool {
    name.len() > 0 && name.last() == ':'
}

/// The fate of a pending callback of `target` and `selector` (where
/// recorded), `sender` and `callback_name` (the selector's name), when the
/// level select (`select_only`) or any other screen drains it: kept unless
/// the bundle leaves callbacks pending, target and selector are recorded,
/// and the callback is the level select exactly when `select_only`;
/// discarded where target or selector is null; else sent.
pub open spec fn pending_callback_spec(
    bundle_identifier: Seq<char>,
    target: Option<u32>,
    selector: Option<u32>,
    sender: Option<u32>,
    callback_name: Option<Seq<char>>,
    select_only: bool,
) -> PendingCallback {
    let name = match callback_name {
        Some(n) => n,
        None => "<unknown>"@,
    };
    if !pending_callback_bundle(bundle_identifier) || target is None || selector is None {
        PendingCallback::Keep
    } else if select_only != (name == "selectLVAction:"@) {
        PendingCallback::Keep
    } else if target->Some_0 == 0 || selector->Some_0 == 0 {
        PendingCallback::Discard
    } else {
        PendingCallback::Send {
            target: target->Some_0 as id,
            selector: selector->Some_0,
            sender: match sender {
                Some(s) => s as id,
                None => 0,
            },
            with_sender: takes_argument(name),
        }
    }
}

/// Decides what becomes of a pending callback (see
/// `pending_callback_spec`).
pub fn pending_callback(
    bundle_identifier: &str,
    target: Option<u32>,
    selector: Option<u32>,
    sender: Option<u32>,
    callback_name: Option<&str>,
    select_only: bool,
) -> (r: PendingCallback)
    ensures
        r == pending_callback_spec(
            bundle_identifier@,
            target,
            selector,
            sender,
            match callback_name {
                Some(n) => Some(n@),
                None => None,
            },
            select_only,
        ),
{
    if !(str_eq(bundle_identifier, "com.apprisetec9.minionjump") || str_eq(
        bundle_identifier,
        "com.risinghighapps.kingdomprincepro",
    )) {
        return PendingCallback::Keep;
    }
    let (target, selector) = match (target, selector) {
        (Some(t), Some(s)) => (t, s),
        _ => {
            return PendingCallback::Keep;
        },
    };
    let name = match callback_name {
        Some(n) => n,
        None => "<unknown>",
    };
    if select_only != str_eq(name, "selectLVAction:") {
        return PendingCallback::Keep;
    }
    if target == 0 || selector == 0 {
        return PendingCallback::Discard;
    }
    let n = name.unicode_len();
    let with_sender = n > 0 && name.get_char(n - 1) == ':';
    PendingCallback::Send {
        target: target as id,
        selector,
        sender: match sender {
            Some(s) => s as id,
            None => 0,
        },
        with_sender,
    }
}

} // verus!
