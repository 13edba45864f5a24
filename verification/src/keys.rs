//! Which keys are held, and which went down or up in the last step. A key
//! is named by its code, a number.
use vstd::prelude::*;

verus! {

/// Code of the key that moves forwards.
pub const KEY_W: i32 = 119;

/// Code of the key that moves backwards.
pub const KEY_S: i32 = 115;

/// Code of the key that moves to the left.
pub const KEY_A: i32 = 97;

/// Code of the key that moves to the right.
pub const KEY_D: i32 = 100;

/// Code of the key that jumps.
pub const KEY_SPACE: i32 = 32;

/// The keys of `keys` that `other` does not hold, in their order.
pub open spec fn without(keys: Seq<i32>, other: Seq<i32>) -> Seq<i32> {
    keys.filter(|k: i32| !other.contains(k))
}

/// The keyboard from one step to the next.
pub struct Keys {
    prev_keys: Vec<i32>,
    pressed_this_frame: Vec<i32>,
    released_this_frame: Vec<i32>,
}

/// Whether `keys` holds `key`.
fn holds(keys: &Vec<i32>, key: i32) -> (r: bool)
    ensures
        r == keys@.contains(key),
{
    let mut i: usize = 0;
    while i < keys.len()
        invariant
            i <= keys.len(),
            forall|j: int| 0 <= j < i ==> keys@[j] != key,
        decreases keys.len() - i,
    {
        if keys[i] == key {
            return true;
        }
        i += 1;
    }
    false
}

/// The keys of `keys` that `other` does not hold.
fn keys_without(keys: &Vec<i32>, other: &Vec<i32>) -> (out: Vec<i32>)
    ensures
        out@ == without(keys@, other@),
{
    let mut out: Vec<i32> = Vec::new();
    let mut i: usize = 0;
    proof {
        reveal(Seq::filter);
        assert(keys@.subrange(0, 0).len() == 0);
    }
    while i < keys.len()
        invariant
            i <= keys.len(),
            out@ == without(keys@.subrange(0, i as int), other@),
        decreases keys.len() - i,
    {
        let key: i32 = keys[i];
        proof {
            reveal(Seq::filter);
            let s = keys@.subrange(0, i + 1);
            assert(s.drop_last() =~= keys@.subrange(0, i as int));
            assert(s.last() == key);
        }
        if !holds(other, key) {
            out.push(key);
        }
        i += 1;
    }
    proof {
        assert(keys@.subrange(0, keys.len() as int) =~= keys@);
    }
    out
}

impl Keys {
    /// The keys held after the last step.
    pub closed spec fn held(&self) -> Seq<i32> {
        self.prev_keys@
    }

    /// The keys that went down in the last step.
    pub closed spec fn pressed(&self) -> Seq<i32> {
        self.pressed_this_frame@
    }

    /// The keys that went up in the last step.
    pub closed spec fn released(&self) -> Seq<i32> {
        self.released_this_frame@
    }

    /// A keyboard on which no key is held.
    pub fn new() -> (k: Keys)
        ensures
            k.held() == Seq::<i32>::empty(),
            k.pressed() == Seq::<i32>::empty(),
            k.released() == Seq::<i32>::empty(),
    {
        Keys {
            prev_keys: Vec::new(),
            pressed_this_frame: Vec::new(),
            released_this_frame: Vec::new(),
        }
    }

    /// One step: `keys` are the keys held now. Those of them that were
    /// not held before went down, and the keys held before that are not
    /// among them went up.
    pub fn tick(&mut self, keys: Vec<i32>)
        ensures
            final(self).held() == keys@,
            final(self).pressed() == without(keys@, old(self).held()),
            final(self).released() == without(old(self).held(), keys@),
    {
        self.pressed_this_frame = keys_without(&keys, &self.prev_keys);
        self.released_this_frame = keys_without(&self.prev_keys, &keys);
        self.prev_keys = keys;
    }

    /// Whether `key` is held.
    pub fn get_key(&self, key: i32) -> (r: bool)
        ensures
            r == self.held().contains(key),
    {
        holds(&self.prev_keys, key)
    }

    /// Whether `key` went down in the last step.
    pub fn get_key_down(&self, key: i32) -> (r: bool)
        ensures
            r == self.pressed().contains(key),
    {
        holds(&self.pressed_this_frame, key)
    }

    /// Whether `key` went up in the last step.
    pub fn get_key_up(&self, key: i32) -> (r: bool)
        ensures
            r == self.released().contains(key),
    {
        holds(&self.released_this_frame, key)
    }
}

/// A key went down in the last step exactly if it is held now and was
/// not held before, and went up exactly if it was held before and is not
/// held now.
pub proof fn lemma_without_contains(keys: Seq<i32>, other: Seq<i32>, key: i32)
    ensures
        without(keys, other).contains(key) <==> keys.contains(key) && !other.contains(key),
{
    let pred = |k: i32| !other.contains(k);
    #[allow(deprecated)]
    keys.filter_lemma(pred);
    if without(keys, other).contains(key) {
        let i = choose|i: int| 0 <= i < without(keys, other).len() && without(keys, other)[i] == key;
        assert(pred(keys.filter(pred)[i]));
        lemma_filter_subset(keys, other, i);
    }
    if keys.contains(key) && !other.contains(key) {
        let j = choose|j: int| 0 <= j < keys.len() && keys[j] == key;
        assert(pred(keys[j]));
        assert(keys.filter(pred).contains(keys[j]));
    }
}

/// Every key of `without(keys, other)` is a key of `keys`.
proof fn lemma_filter_subset(keys: Seq<i32>, other: Seq<i32>, i: int)
    requires
        0 <= i < without(keys, other).len(),
    ensures
        keys.contains(without(keys, other)[i]),
    decreases keys.len(),
{
    reveal(Seq::filter);
    let pred = |k: i32| !other.contains(k);
    if keys.len() > 0 {
        let sub = keys.drop_last().filter(pred);
        if i < sub.len() {
            lemma_filter_subset(keys.drop_last(), other, i);
            let k = without(keys.drop_last(), other)[i];
            let j = choose|j: int| 0 <= j < keys.drop_last().len() && keys.drop_last()[j] == k;
            assert(keys[j] == k);
        } else {
            assert(keys[keys.len() - 1] == keys.last());
        }
    }
}

} // verus!
