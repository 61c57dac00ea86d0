//! The set of currently pressed virtual keys, indices 0 through 15. The
//! host refreshes it once per cycle from its live key state; the core only
//! asks which keys are down and which pressed key has the lowest index.
use vstd::prelude::*;

verus! {

/// One boolean per virtual key: entry `k` of the view is true when key `k`
/// is currently pressed.
pub struct InputState {
    keys: Vec<bool>,
}

impl View for InputState {
    type V = Seq<bool>;

    closed spec fn view(&self) -> Seq<bool> {
        self.keys@
    }
}

/// The lowest pressed key index, if any key is pressed at all.
pub open spec fn spec_lowest_pressed(keys: Seq<bool>) -> Option<u8>
    decreases keys.len(),
{
    if keys.len() == 0 {
        None
    } else if keys[0] {
        Some(0)
    } else {
        match spec_lowest_pressed(keys.skip(1)) {
            None => None,
            Some(k) => Some((k + 1) as u8),
        }
    }
}

impl InputState {
    /// Always exactly sixteen keys.
    pub open spec fn wf(&self) -> bool {
        self@.len() == 16
    }

    /// All sixteen keys released.
    pub fn new() -> (s: InputState)
        ensures
            s.wf(),
            forall|k: int| 0 <= k < 16 ==> !s@[k],
    {
        let mut keys: Vec<bool> = Vec::new();
        let mut i: usize = 0;
        while i < 16
            invariant
                i <= 16,
                keys@.len() == i,
                forall|j: int| 0 <= j < i ==> !keys@[j],
            decreases 16 - i,
        {
            keys.push(false);
            i += 1;
        }
        InputState { keys }
    }

    /// Record key `k` as pressed or released.
    pub fn set_key(&mut self, k: u8, pressed: bool)
        requires
            old(self).wf(),
            k < 16,
        ensures
            final(self).wf(),
            final(self)@ == old(self)@.update(k as int, pressed),
    {
        self.keys.set(k as usize, pressed);
    }

    /// Whether key `k` is currently pressed.
    pub fn is_pressed(&self, k: u8) -> (r: bool)
        requires
            self.wf(),
            k < 16,
        ensures
            r == self@[k as int],
    {
        self.keys[k as usize]
    }

    /// The lowest pressed key index, or `None` when no key is pressed.
    pub fn lowest_pressed(&self) -> (r: Option<u8>)
        requires
            self.wf(),
        ensures
            r == spec_lowest_pressed(self@),
            r is None <==> (forall|k: int| 0 <= k < 16 ==> !self@[k]),
            r matches Some(k) ==> 0 <= k < 16 && self@[k as int] && (forall|j: int|
                0 <= j < k ==> !self@[j]),
    {
        proof {
            lemma_lowest_pressed(self@);
        }
        let mut i: usize = 0;
        while i < 16
            invariant
                self.wf(),
                i <= 16,
                forall|j: int| 0 <= j < i ==> !self@[j],
            decreases 16 - i,
        {
            if self.keys[i] {
                proof {
                    lemma_lowest_pressed(self@);
                }
                return Some(i as u8);
            }
            i += 1;
        }
        None
    }
}

/// `spec_lowest_pressed` returns exactly the least pressed index: `None`
/// when nothing is pressed, otherwise a pressed index below which nothing
/// is pressed.
pub proof fn lemma_lowest_pressed(keys: Seq<bool>)
    requires
        keys.len() <= 16,
    ensures
        spec_lowest_pressed(keys) is None <==> (forall|k: int| 0 <= k < keys.len() ==> !keys[k]),
        spec_lowest_pressed(keys) matches Some(k) ==> 0 <= k < keys.len() && keys[k as int] && (
        forall|j: int| 0 <= j < k ==> !keys[j]),
    decreases keys.len(),
{
    if keys.len() > 0 && !keys[0] {
        let rest = keys.skip(1);
        lemma_lowest_pressed(rest);
        assert(forall|j: int| 0 <= j < rest.len() ==> rest[j] == keys[j + 1]);
        if spec_lowest_pressed(rest) is None {
            assert(forall|k: int| 0 <= k < keys.len() ==> !keys[k]) by {
                assert forall|k: int| 0 <= k < keys.len() implies !keys[k] by {
                    if k > 0 {
                        assert(!rest[k - 1]);
                    }
                }
            }
        } else {
            let k = spec_lowest_pressed(rest)->Some_0;
            assert(keys[k + 1] == rest[k as int]);
            assert forall|j: int| 0 <= j < k + 1 implies !keys[j] by {
                if j > 0 {
                    assert(!rest[j - 1]);
                }
            }
        }
    }
}

} // verus!
