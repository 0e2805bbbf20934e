use vstd::prelude::*;

verus! {

/// Keyboard state, fed by key events: which keys are held down, and which
/// went down since the pressed keys were last flushed. Keys are named by their
/// key codes (such as `KeyQ`).
pub struct Input {
    key_map: Vec<(String, bool)>,
    key_pressed_map: Vec<(String, bool)>,
}

/// `entries` records `code` as true.
pub open spec fn recorded_true(entries: Seq<(String, bool)>, code: Seq<char>) -> bool {
    exists|i: int| 0 <= i < entries.len() && (#[trigger] entries[i]).0@ == code && entries[i].1
}

/// `entries` records `code`, with either value.
pub open spec fn recorded(entries: Seq<(String, bool)>, code: Seq<char>) -> bool {
    exists|i: int| 0 <= i < entries.len() && (#[trigger] entries[i]).0@ == code
}

/// No code is recorded twice.
pub open spec fn unique_codes(entries: Seq<(String, bool)>) -> bool {
    forall|i: int, j: int|
        0 <= i < j < entries.len() ==> (#[trigger] entries[i]).0@ != (#[trigger] entries[j]).0@
}

/// The index of the entry for `code`, if there is one.
fn position(entries: &Vec<(String, bool)>, code: &String) -> (r: Option<usize>)
    ensures
        r matches Some(i) ==> i < entries@.len() && entries@[i as int].0@ == code@,
        r is None ==> !recorded(entries@, code@),
{
    let mut i: usize = 0;
    while i < entries.len()
        invariant
            0 <= i <= entries@.len(),
            forall|k: int| 0 <= k < i ==> (#[trigger] entries@[k]).0@ != code@,
        decreases entries@.len() - i,
    {
        if entries[i].0 == *code {
            return Some(i);
        }
        i += 1;
    }
    None
}

/// Records `value` for `code`, replacing an earlier entry for it.
fn record(entries: &mut Vec<(String, bool)>, code: String, value: bool)
    requires
        unique_codes(old(entries)@),
    ensures
        unique_codes(final(entries)@),
        recorded(final(entries)@, code@),
        recorded_true(final(entries)@, code@) == value,
        forall|k: Seq<char>|
            k != code@ ==> (recorded_true(final(entries)@, k) == recorded_true(old(entries)@, k)
                && recorded(final(entries)@, k) == recorded(old(entries)@, k)),
{
    let ghost before = entries@;
    match position(entries, &code) {
        Some(i) => {
            entries.set(i, (code, value));
            proof {
                assert(entries@[i as int].0@ == before[i as int].0@);
                assert forall|k: Seq<char>| k != entries@[i as int].0@ implies (recorded_true(
                    entries@,
                    k,
                ) == recorded_true(before, k) && recorded(entries@, k) == recorded(before, k)) by {
                    if recorded_true(before, k) {
                        let j = choose|j: int|
                            0 <= j < before.len() && (#[trigger] before[j]).0@ == k && before[j].1;
                        assert(entries@[j] == before[j]);
                    }
                    if recorded(before, k) {
                        let j = choose|j: int| 0 <= j < before.len() && (#[trigger] before[j]).0@ == k;
                        assert(entries@[j] == before[j]);
                    }
                    if recorded_true(entries@, k) {
                        let j = choose|j: int|
                            0 <= j < entries@.len() && (#[trigger] entries@[j]).0@ == k
                                && entries@[j].1;
                        assert(before[j] == entries@[j]);
                    }
                    if recorded(entries@, k) {
                        let j = choose|j: int| 0 <= j < entries@.len() && (#[trigger] entries@[j]).0@ == k;
                        assert(before[j] == entries@[j]);
                    }
                }
                if recorded_true(entries@, entries@[i as int].0@) {
                    let j = choose|j: int|
                        0 <= j < entries@.len() && (#[trigger] entries@[j]).0@ == entries@[i as int].0@
                            && entries@[j].1;
                    if j != i as int {
                        assert(before[j].0@ == before[i as int].0@);
                        if j < i {
                            assert(before[j].0@ != before[i as int].0@);
                        } else {
                            assert(before[i as int].0@ != before[j].0@);
                        }
                    }
                }
                assert(entries@[i as int].0@ == code@);
            }
        },
        None => {
            let ghost c = code@;
            entries.push((code, value));
            proof {
                assert(entries@[before.len() as int].0@ == c);
                assert forall|k: Seq<char>| k != c implies (recorded_true(entries@, k) == recorded_true(
                    before,
                    k,
                ) && recorded(entries@, k) == recorded(before, k)) by {
                    if recorded_true(before, k) {
                        let j = choose|j: int|
                            0 <= j < before.len() && (#[trigger] before[j]).0@ == k && before[j].1;
                        assert(entries@[j] == before[j]);
                    }
                    if recorded(before, k) {
                        let j = choose|j: int| 0 <= j < before.len() && (#[trigger] before[j]).0@ == k;
                        assert(entries@[j] == before[j]);
                    }
                }
                if recorded_true(entries@, c) != value {
                    let j = choose|j: int|
                        0 <= j < entries@.len() && (#[trigger] entries@[j]).0@ == c && entries@[j].1;
                    assert(entries@[j] == before[j]);
                }
            }
        },
    }
}

impl Input {
    /// No code is recorded twice in either map.
    pub closed spec fn wf(&self) -> bool {
        unique_codes(self.key_map@) && unique_codes(self.key_pressed_map@)
    }

    /// The key `code` is held down.
    pub closed spec fn is_down(&self, code: Seq<char>) -> bool {
        recorded_true(self.key_map@, code)
    }

    /// The key `code` went down since the pressed keys were last flushed.
    pub closed spec fn was_pressed(&self, code: Seq<char>) -> bool {
        recorded_true(self.key_pressed_map@, code)
    }

    /// Keyboard state with no key down and none pressed.
    pub fn init() -> (r: Self)
        ensures
            r.wf(),
            forall|code: Seq<char>| !r.is_down(code) && !r.was_pressed(code),
    {
        Input { key_map: Vec::new(), key_pressed_map: Vec::new() }
    }

    /// A key went down. It counts as pressed unless it was already down (a
    /// repeat of a held key).
    pub fn on_key_down(&mut self, code: String)
        requires
            old(self).wf(),
        ensures
            final(self).wf(),
            final(self).is_down(code@),
            final(self).was_pressed(code@) == (old(self).was_pressed(code@) || !old(self).is_down(
                code@,
            )),
            forall|k: Seq<char>|
                k != code@ ==> final(self).is_down(k) == old(self).is_down(k) && final(self).was_pressed(
                    k,
                ) == old(self).was_pressed(k),
    {
        let pos = position(&self.key_map, &code);
        let was_down = match pos {
            None => false,
            Some(i) => self.key_map[i].1,
        };
        proof {
            if recorded_true(self.key_map@, code@) {
                let j = choose|j: int|
                    0 <= j < self.key_map@.len() && (#[trigger] self.key_map@[j]).0@ == code@
                        && self.key_map@[j].1;
                if let Some(i) = pos {
                    if j < i {
                        assert(self.key_map@[j].0@ != self.key_map@[i as int].0@);
                    } else if j > i {
                        assert(self.key_map@[i as int].0@ != self.key_map@[j].0@);
                    }
                }
            }
        }
        if !was_down {
            let pressed_code = code.clone();
            record(&mut self.key_pressed_map, pressed_code, true);
        }
        record(&mut self.key_map, code, true);
    }

    /// A key went up.
    pub fn on_key_up(&mut self, code: String)
        requires
            old(self).wf(),
        ensures
            final(self).wf(),
            !final(self).is_down(code@),
            forall|k: Seq<char>| k != code@ ==> final(self).is_down(k) == old(self).is_down(k),
            forall|k: Seq<char>| final(self).was_pressed(k) == old(self).was_pressed(k),
    {
        record(&mut self.key_map, code, false);
    }

    /// Forgets which keys were pressed; held keys stay down.
    pub fn flush_pressed_map(&mut self)
        requires
            old(self).wf(),
        ensures
            final(self).wf(),
            forall|k: Seq<char>| !final(self).was_pressed(k),
            forall|k: Seq<char>| final(self).is_down(k) == old(self).is_down(k),
    {
        self.key_pressed_map.clear();
    }

    /// Whether the key `code` is held down.
    pub fn get_key_down(&self, code: &str) -> (r: bool)
        requires
            self.wf(),
        ensures
            r == self.is_down(code@),
    {
        let code = code.to_owned();
        match position(&self.key_map, &code) {
            None => false,
            Some(i) => self.key_map[i].1,
        }
    }

    /// Whether the key `code` went down since the last flush.
    pub fn key_was_pressed(&self, code: &str) -> (r: bool)
        requires
            self.wf(),
        ensures
            r == self.was_pressed(code@),
    {
        let code = code.to_owned();
        match position(&self.key_pressed_map, &code) {
            None => false,
            Some(i) => self.key_pressed_map[i].1,
        }
    }
}

} // verus!
