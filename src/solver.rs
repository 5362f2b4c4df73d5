use vstd::prelude::*;
use crate::input::{InputMap, InputValue, Inputs, initial_values, lemma_values_track_bindings};

verus! {

/// The evaluation state carried from one evaluation to the next: the frame
/// counter that scripts read as `TIME`.
#[derive(Debug)]
pub struct Solver {
    frame_count: u32,
}

impl Solver {
    pub closed spec fn time(&self) -> u32 {
        self.frame_count
    }

    /// A solver at frame zero.
    pub fn new() -> (r: Solver)
        ensures
            r.time() == 0,
    {
        Solver { frame_count: 0 }
    }

    /// Moves to the next frame; after the largest frame number comes zero.
    pub fn advance_time(&mut self)
        ensures
            final(self).time() == (if old(self).time() == u32::MAX {
                0
            } else {
                (old(self).time() + 1) as u32
            }),
    {
        self.frame_count = self.frame_count.wrapping_add(1);
    }

    /// Goes back to frame zero.
    pub fn reset_time(&mut self)
        ensures
            final(self).time() == 0,
    {
        self.frame_count = 0;
    }

    pub fn get_time(&self) -> (r: u32)
        ensures
            r == self.time(),
    {
        self.frame_count
    }

    /// The value a script sees for `TIME`.
    pub fn time_binding(&self) -> (r: i64)
        ensures
            r == self.time() as i64,
    {
        self.frame_count as i64
    }
}

impl Default for Solver {
    fn default() -> (r: Solver)
        ensures
            r.time() == 0,
    {
        Solver::new()
    }
}

/// The answer of the variable-resolution hook for a free variable `name`:
/// the value bound to the input of that name, which overrides whatever the
/// script itself binds; nothing if no input has that name, in which case
/// the engine resolves the name as usual.
pub fn resolve_variable(inputs: &Inputs, name: &str) -> (r: Option<InputValue>)
    requires
        inputs.wf(),
    ensures
        r == (if inputs@.contains_key(name@) {
            Some(inputs@[name@])
        } else {
            None
        }),
{
    inputs.get(name)
}

/// What identifies an evaluation for the frame cache: the script text and
/// the bound values in name order. The frame counter is not part of it.
#[derive(Debug, Clone, PartialEq, Eq, Hash)]
pub struct FrameKey {
    code: String,
    values: Vec<InputValue>,
}

impl View for FrameKey {
    type V = (Seq<char>, Seq<InputValue>);

    closed spec fn view(&self) -> (Seq<char>, Seq<InputValue>) {
        (self.code@, self.values@)
    }
}

impl FrameKey {
    /// The key of evaluating `code` with `inputs`.
    pub fn make_key(code: &str, inputs: &Inputs) -> (r: FrameKey)
        ensures
            r@ == (code@, inputs.values()),
    {
        FrameKey { code: code.to_owned(), values: inputs.bound_values() }
    }

    /// Both keys stand for the same script text and the same values.
    pub fn same_as(&self, other: &FrameKey) -> (r: bool)
        ensures
            r == (self@ == other@),
    {
        if self.code != other.code || self.values.len() != other.values.len() {
            return false;
        }
        let mut k: usize = 0;
        while k < self.values.len()
            invariant
                k <= self.values@.len(),
                self.values@.len() == other.values@.len(),
                forall|i: int| 0 <= i < k ==> self.values@[i] == other.values@[i],
            decreases self.values@.len() - k,
        {
            if self.values[k] != other.values[k] {
                return false;
            }
            k = k + 1;
        }
        assert(self.values@ =~= other.values@);
        true
    }
}

/// The frame key is determined by the script text and the bindings, and
/// is sensitive to both: keys of two texts with stores over the same input
/// names are equal exactly when the texts are equal and every input is
/// bound to the same value.
pub proof fn lemma_frame_key(code_a: Seq<char>, a: &Inputs, code_b: Seq<char>, b: &Inputs)
    requires
        a.wf(),
        b.wf(),
        a@.dom() == b@.dom(),
    ensures
        (code_a, a.values()) == (code_b, b.values()) <==> (code_a == code_b && a@ == b@),
{
    lemma_values_track_bindings(a, b);
}

/// The frame-cache policy: remembers the key of the last evaluation.
#[derive(Debug)]
pub struct FrameCache {
    last: Option<FrameKey>,
}

impl FrameCache {
    pub closed spec fn last_key(&self) -> Option<(Seq<char>, Seq<InputValue>)> {
        match self.last {
            Some(k) => Some(k@),
            None => None,
        }
    }

    /// A cache that has seen no evaluation.
    pub fn new() -> (r: FrameCache)
        ensures
            r.last_key() is None,
    {
        FrameCache { last: None }
    }

    /// One host tick. The same script with the same values as last time is
    /// an animation frame: time advances and `true` is returned. Anything
    /// else is a change: time goes back to zero and the key is remembered.
    pub fn tick(&mut self, solver: &mut Solver, key: FrameKey) -> (r: bool)
        ensures
            r == is_animation_frame(old(self).last_key(), key@),
            final(self).last_key() == key_after(old(self).last_key(), key@),
            r ==> final(solver).time() == (if old(
                solver,
            ).time() == u32::MAX {
                0
            } else {
                (old(solver).time() + 1) as u32
            }),
            !r ==> final(solver).time() == 0,
    {
        let same = match &self.last {
            Some(k) => k.same_as(&key),
            None => false,
        };
        if same {
            solver.advance_time();
            true
        } else {
            solver.reset_time();
            self.last = Some(key);
            false
        }
    }
}

/// A tick with `key` after one whose key was `last` is an animation frame.
pub open spec fn is_animation_frame(last: Option<(Seq<char>, Seq<InputValue>)>, key: (Seq<char>, Seq<InputValue>)) -> bool {
    last == Some(key)
}

/// The key the cache remembers after a tick with `key`.
pub open spec fn key_after(last: Option<(Seq<char>, Seq<InputValue>)>, key: (Seq<char>, Seq<InputValue>)) -> Option<(Seq<char>, Seq<InputValue>)> {
    if is_animation_frame(last, key) {
        last
    } else {
        Some(key)
    }
}

/// Whatever came before, a tick that repeats the previous tick's script and
/// values is an animation frame: the frame counter is not part of the key,
/// so advancing it never looks like a change of input.
pub proof fn lemma_repeated_tick_animates(last: Option<(Seq<char>, Seq<InputValue>)>, key: (Seq<char>, Seq<InputValue>))
    ensures
        is_animation_frame(key_after(last, key), key),
        key_after(key_after(last, key), key) == key_after(last, key),
{
}

/// The host's rule for a freshly extracted input map: when it differs from
/// the current one it replaces it and every value goes back to its lower
/// bound; when it is equal, the current values stay. Returns whether a
/// reset took place.
pub fn refresh_inputs(current: &mut InputMap, inputs: &mut Inputs, fresh: InputMap) -> (r: bool)
    requires
        old(current).wf(),
        old(inputs).wf(),
        fresh.wf(),
    ensures
        final(current).wf(),
        final(inputs).wf(),
        r == (old(current)@ != fresh@),
        r ==> final(current)@ == fresh@ && final(inputs)@ == initial_values(fresh@),
        !r ==> final(current)@ == old(current)@ && final(inputs)@ == old(inputs)@,
{
    proof {
        crate::input::lemma_input_map_eq(&*current, &fresh);
    }
    if *current == fresh {
        false
    } else {
        *inputs = Inputs::init_from(&fresh);
        *current = fresh;
        true
    }
}

} // verus!
