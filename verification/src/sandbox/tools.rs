use vstd::prelude::*;

verus! {

/// The tool that the left mouse button drives.
#[derive(Clone, Copy, PartialEq, Eq, Structural, Debug)]
pub enum ActiveTool {
    Drag,
    Rectangle,
    Circle,
}

/// The left mouse button in one frame: whether it went down this frame, is
/// held, or came up this frame.
#[derive(Clone, Copy, PartialEq, Eq, Debug)]
pub struct ButtonInput {
    pub pressed: bool,
    pub down: bool,
    pub released: bool,
}

// ---------------------------------------------------------------------------
// Picking the body nearest to the mouse
// ---------------------------------------------------------------------------

/// `a` is strictly less than `b`, as distances compare: a distance that is
/// not a number (`None`) is neither less nor greater than any other.
pub open spec fn key_less(a: Option<u32>, b: Option<u32>) -> bool {
    a is Some && b is Some && a->0 < b->0
}

/// `i` is the body that the nearest-body scan ends on: the first body whose
/// distance is least among the bodies whose distances are numbers, or body
/// `0` when its own distance is not a number.
pub open spec fn is_first_nearest(keys: Seq<Option<u32>>, i: int) -> bool {
    &&& 0 <= i < keys.len()
    &&& keys[0] is None ==> i == 0
    &&& keys[0] is Some ==> {
        &&& keys[i] is Some
        &&& forall|j: int| 0 <= j < keys.len() ==> !key_less(#[trigger] keys[j], keys[i])
        &&& forall|j: int| 0 <= j < i ==> key_less(keys[i], #[trigger] keys[j]) || keys[j] is None
    }
}

/// The body nearest to the mouse among bodies with the given order keys.
pub open spec fn first_nearest(keys: Seq<Option<u32>>) -> Option<usize> {
    if keys.len() == 0 {
        None
    } else {
        Some(choose|i: usize| is_first_nearest(keys, i as int))
    }
}

/// At most one index is the first nearest.
pub proof fn lemma_first_nearest_unique(keys: Seq<Option<u32>>, i: int, j: int)
    requires
        is_first_nearest(keys, i),
        is_first_nearest(keys, j),
    ensures
        i == j,
{
    if keys[0] is Some {
        if i < j {
            assert(key_less(keys[j], keys[i]) || keys[i] is None);
        } else if j < i {
            assert(key_less(keys[i], keys[j]) || keys[j] is None);
        }
    }
}

/// The body the scan ends on is a nearest one: when the first body's
/// distance is a number, no body whose distance is a number is nearer, and
/// every earlier body is strictly farther; otherwise it is the first body.
pub proof fn lemma_first_nearest_is_nearest(keys: Seq<Option<u32>>, i: int, j: int)
    requires
        is_first_nearest(keys, i),
        0 <= j < keys.len(),
    ensures
        0 <= i < keys.len(),
        keys[0] is None ==> i == 0,
        keys[0] is Some && keys[j] is Some ==> keys[i] is Some && keys[i]->0 <= keys[j]->0,
        keys[0] is Some && keys[j] is Some && j < i ==> keys[i]->0 < keys[j]->0,
{
    if keys[0] is Some && keys[j] is Some {
        assert(!key_less(keys[j], keys[i]));
        if j < i {
            assert(key_less(keys[i], keys[j]) || keys[j] is None);
        }
    }
}

/// Whether distance key `a` is strictly less than `b`.
pub fn closer(a: Option<u32>, b: Option<u32>) -> (r: bool)
    ensures
        r == key_less(a, b),
{
    match (a, b) {
        (Some(x), Some(y)) => x < y,
        _ => false,
    }
}

/// The body nearest to the mouse, given one order key per body: `Some`
/// keys compare as the bodies' distances to the mouse do, and `None` stands
/// for a distance that is not a number, which compares with nothing. Scans
/// from the first body and moves on only to a strictly nearer one, so on a
/// tie the first body wins; with no bodies there is none.
pub fn get_nearest_body(distance_keys: &[Option<u32>]) -> (nearest: Option<usize>)
    ensures
        nearest == first_nearest(distance_keys@),
        nearest is None <==> distance_keys@.len() == 0,
        nearest matches Some(i) ==> is_first_nearest(distance_keys@, i as int),
        nearest matches Some(i) ==> i < distance_keys@.len(),
        nearest matches Some(i) ==> distance_keys@[0] is Some ==> {
            &&& distance_keys@[i as int] is Some
            &&& forall|j: int|
                0 <= j < distance_keys@.len() && (#[trigger] distance_keys@[j]) is Some
                    ==> distance_keys@[i as int]->0 <= distance_keys@[j]->0
            &&& forall|j: int|
                0 <= j < i && (#[trigger] distance_keys@[j]) is Some
                    ==> distance_keys@[i as int]->0 < distance_keys@[j]->0
        },
        nearest matches Some(i) ==> (distance_keys@[0] is None ==> i == 0),
{
    if distance_keys.len() == 0 {
        return None;
    }
    let mut nearest_distance: Option<u32> = distance_keys[0];
    let mut candidate_index: usize = 0;
    let mut i: usize = 1;
    while i < distance_keys.len()
        invariant
            1 <= i <= distance_keys@.len(),
            candidate_index < i,
            nearest_distance == distance_keys@[candidate_index as int],
            distance_keys@[0] is None ==> candidate_index == 0,
            distance_keys@[0] is Some ==> {
                &&& nearest_distance is Some
                &&& forall|j: int|
                    0 <= j < i ==> !key_less(#[trigger] distance_keys@[j], nearest_distance)
                &&& forall|j: int|
                    0 <= j < candidate_index ==> key_less(nearest_distance, #[trigger] distance_keys@[j])
                        || distance_keys@[j] is None
            },
        decreases distance_keys@.len() - i,
    {
        let candidate_distance = distance_keys[i];
        if closer(candidate_distance, nearest_distance) {
            nearest_distance = candidate_distance;
            candidate_index = i;
        }
        i = i + 1;
    }
    proof {
        let keys = distance_keys@;
        assert(is_first_nearest(keys, candidate_index as int));
        let c = choose|c: usize| is_first_nearest(keys, c as int);
        lemma_first_nearest_unique(keys, c as int, candidate_index as int);
    }
    Some(candidate_index)
}

// ---------------------------------------------------------------------------
// The drag tool: pull the nearest body towards the mouse
// ---------------------------------------------------------------------------

/// Which body the drag tool holds, and whether it draws its line.
#[derive(Clone, Copy, PartialEq, Eq, Debug)]
pub struct DragSelection {
    pub selected: Option<usize>,
    pub draw_line: bool,
}

/// The body held once this frame's press, if any, has been handled.
pub open spec fn held_after_press(selected: Option<usize>, input: ButtonInput, keys: Seq<Option<u32>>) -> Option<usize> {
    if input.pressed {
        first_nearest(keys)
    } else {
        selected
    }
}

/// The body that the drag tool pulls this frame.
pub open spec fn pulled_body(selected: Option<usize>, input: ButtonInput, keys: Seq<Option<u32>>) -> Option<usize> {
    if input.down {
        held_after_press(selected, input, keys)
    } else {
        None
    }
}

/// The drag tool's selection at the end of the frame.
pub open spec fn selection_after(sel: DragSelection, input: ButtonInput, keys: Seq<Option<u32>>) -> DragSelection {
    let held = held_after_press(sel.selected, input, keys);
    if input.released {
        DragSelection { selected: None, draw_line: false }
    } else {
        DragSelection {
            selected: held,
            draw_line: if input.down && held is Some { true } else { sel.draw_line },
        }
    }
}

impl DragSelection {
    /// Nothing held, no line.
    pub fn new() -> (sel: DragSelection)
        ensures
            sel.selected is None,
            !sel.draw_line,
    {
        DragSelection { selected: None, draw_line: false }
    }

    /// One frame of the drag tool. A press grabs the body nearest to the
    /// mouse (`distance_keys` holds one order key per body, read only on a
    /// press); while the button is held the grabbed body is pulled and the
    /// line is drawn; a release lets go. Returns the body to pull towards the
    /// mouse this frame.
    pub fn update(&mut self, input: ButtonInput, distance_keys: &[Option<u32>]) -> (pull: Option<usize>)
        ensures
            pull == pulled_body(old(self).selected, input, distance_keys@),
            *final(self) == selection_after(*old(self), input, distance_keys@),
    {
        if input.pressed {
            self.selected = get_nearest_body(distance_keys);
        }
        let mut pull: Option<usize> = None;
        if input.down {
            if let Some(index) = self.selected {
                pull = Some(index);
                self.draw_line = true;
            }
        }
        if input.released {
            self.selected = None;
            self.draw_line = false;
        }
        pull
    }
}

/// Grab, then hold: the body that a press grabs is the one pulled on every
/// later frame that holds the button without pressing or releasing it,
/// whatever the bodies' distances are by then, and the line is drawn.
pub proof fn lemma_drag_holds_grabbed_body(
    sel: DragSelection,
    press: ButtonInput,
    keys_at_press: Seq<Option<u32>>,
    hold: ButtonInput,
    keys_later: Seq<Option<u32>>,
)
    requires
        press.pressed,
        !press.released,
        keys_at_press.len() > 0,
        hold.down,
        !hold.pressed,
        !hold.released,
    ensures
        first_nearest(keys_at_press) is Some,
        pulled_body(selection_after(sel, press, keys_at_press).selected, hold, keys_later)
            == first_nearest(keys_at_press),
        selection_after(selection_after(sel, press, keys_at_press), hold, keys_later)
            == (DragSelection { selected: first_nearest(keys_at_press), draw_line: true }),
{
}

/// A release lets go of the body and hides the line, whatever else happened
/// in that frame.
pub proof fn lemma_drag_release_lets_go(sel: DragSelection, input: ButtonInput, keys: Seq<Option<u32>>)
    requires
        input.released,
    ensures
        selection_after(sel, input, keys) == (DragSelection { selected: None, draw_line: false }),
{
}

// ---------------------------------------------------------------------------
// The shape tools: outline with a drag, confirm on release
// ---------------------------------------------------------------------------

/// What a shape tool does in one frame: outline the shape between two
/// points, and create the shape between two points.
#[derive(Clone, Copy, PartialEq, Eq, Debug)]
pub struct GestureActions<P> {
    pub preview: Option<(P, P)>,
    pub create: Option<(P, P)>,
}

/// Where the drag of a shape tool started, if one is under way.
#[derive(Clone, Copy, PartialEq, Eq, Debug)]
pub struct DragGesture<P> {
    pub drag_start: Option<P>,
}

/// The drag start once this frame's press, if any, has been handled.
pub open spec fn armed_start<P>(start: Option<P>, mouse: P, input: ButtonInput) -> Option<P> {
    if input.pressed {
        Some(mouse)
    } else {
        start
    }
}

/// The drag start at the end of the frame.
pub open spec fn start_after<P>(start: Option<P>, mouse: P, input: ButtonInput) -> Option<P> {
    if input.released {
        None
    } else {
        armed_start(start, mouse, input)
    }
}

/// What the shape tool does this frame.
pub open spec fn gesture_actions<P>(start: Option<P>, mouse: P, input: ButtonInput) -> GestureActions<P> {
    let armed = armed_start(start, mouse, input);
    GestureActions {
        preview: if input.down && armed is Some { Some((armed->0, mouse)) } else { None },
        create: if input.released && armed is Some { Some((armed->0, mouse)) } else { None },
    }
}

impl<P: Copy> DragGesture<P> {
    /// No drag under way.
    pub fn new() -> (g: DragGesture<P>)
        ensures
            g.drag_start is None,
    {
        DragGesture { drag_start: None }
    }

    /// One frame of a shape tool at mouse position `mouse`. A press starts a
    /// drag there; while the button is held the shape from the start to the
    /// mouse is outlined; a release creates that shape and ends the drag.
    pub fn update(&mut self, mouse: P, input: ButtonInput) -> (actions: GestureActions<P>)
        ensures
            final(self).drag_start == start_after(old(self).drag_start, mouse, input),
            actions == gesture_actions(old(self).drag_start, mouse, input),
    {
        let mut actions = GestureActions { preview: None, create: None };
        if input.pressed {
            self.drag_start = Some(mouse);
        }
        if input.down {
            if let Some(start) = self.drag_start {
                actions.preview = Some((start, mouse));
            }
        }
        if input.released {
            if let Some(start) = self.drag_start {
                actions.create = Some((start, mouse));
            }
            self.drag_start = None;
        }
        actions
    }
}

/// Press, hold, release: a drag pressed at `m1` outlines the shape from
/// `m1` to the mouse while held, and on release at `m3` creates exactly the
/// shape from `m1` to `m3` and ends the drag.
pub proof fn lemma_gesture_press_hold_release<P>(
    start: Option<P>,
    m1: P,
    press: ButtonInput,
    m2: P,
    hold: ButtonInput,
    m3: P,
    release: ButtonInput,
)
    requires
        press.pressed,
        !press.released,
        !hold.pressed,
        !hold.released,
        !release.pressed,
        release.released,
    ensures
        start_after(start, m1, press) == Some(m1),
        start_after(Some(m1), m2, hold) == Some(m1),
        hold.down ==> gesture_actions(Some(m1), m2, hold).preview == Some((m1, m2)),
        gesture_actions(Some(m1), m2, hold).create is None,
        gesture_actions(Some(m1), m3, release).create == Some((m1, m3)),
        start_after(Some(m1), m3, release) is None,
{
}

/// Nothing is created in a frame without a release, and no shape is
/// created or outlined without a drag start.
pub proof fn lemma_gesture_needs_start_and_release<P>(start: Option<P>, mouse: P, input: ButtonInput)
    ensures
        !input.released ==> gesture_actions(start, mouse, input).create is None,
        start is None && !input.pressed ==> gesture_actions(start, mouse, input) == (GestureActions::<P> {
            preview: None,
            create: None,
        }),
{
}

// ---------------------------------------------------------------------------
// The colour of a new body
// ---------------------------------------------------------------------------

/// Calls `rand::seq::IndexedRandom::choose` on `items` with the thread-local
/// generator `rand::rng()`. Claimed: the result is `None` exactly when
/// `items` is empty, and otherwise one of the items. Which one is left to
/// chance; the generator panics if the operating system gives no entropy.
#[verifier::external_body]
fn choose_random<C: Copy>(items: &[C]) -> (picked: Option<C>)
    ensures
        picked is None <==> items@.len() == 0,
        picked matches Some(c) ==> items@.contains(c),
{
    rand::seq::IndexedRandom::choose(items, &mut rand::rng()).copied()
}

/// The colour of a body a shape tool creates: with random colours on, one
/// of the palette's colours picked at random; otherwise the tool's own.
pub fn body_color<C: Copy>(random_colors: bool, own_color: C, palette: &[C]) -> (color: C)
    requires
        palette@.len() > 0,
    ensures
        !random_colors ==> color == own_color,
        random_colors ==> palette@.contains(color),
{
    if random_colors {
        match choose_random(palette) {
            Some(c) => c,
            None => own_color,
        }
    } else {
        own_color
    }
}

} // verus!
