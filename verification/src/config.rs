//! The user's configuration: the theme name and the key bindings that the Lua config
//! file sets.
use vstd::prelude::*;
use crate::keymap::{action_steps, KeyAction};

verus! {

#[derive(Debug)]
pub struct Config {
    theme: String,
    keys: Vec<(String, String, String)>,
}

impl Config {
    /// The theme name the configuration holds.
    pub closed spec fn theme_name(&self) -> Seq<char> {
        self.theme@
    }

    /// The key bindings, in the order they were set: (mode, keys, command).
    pub closed spec fn key_bindings(&self) -> Seq<(Seq<char>, Seq<char>, Seq<char>)> {
        self.keys@.map_values(|k: (String, String, String)| (k.0@, k.1@, k.2@))
    }

    /// The configuration before the config file runs: theme `nord`, no key bindings.
    pub fn default() -> (c: Config)
        ensures
            c.theme_name() == "nord"@,
            c.key_bindings() == Seq::<(Seq<char>, Seq<char>, Seq<char>)>::empty(),
    {
        let c = Config { theme: String::from_str("nord"), keys: Vec::new() };
        assert(c.key_bindings() =~= Seq::<(Seq<char>, Seq<char>, Seq<char>)>::empty());
        c
    }

    /// `mist.theme.set(name)`: the theme becomes `name`.
    pub fn set_theme(&mut self, name: String)
        ensures
            final(self).theme_name() == name@,
            final(self).key_bindings() == old(self).key_bindings(),
    {
        self.theme = name;
    }

    /// The key bindings as actions that bind, in the order they were set, for building
    /// a key tree.
    pub fn key_actions(&self) -> (v: Vec<KeyAction>)
        ensures
            action_steps(v@) == self.key_bindings().map_values(
                |k: (Seq<char>, Seq<char>, Seq<char>)| (k.0, k.1, Some(k.2)),
            ),
    {
        let mut v: Vec<KeyAction> = Vec::new();
        let mut i: usize = 0;
        while i < self.keys.len()
            invariant
                0 <= i <= self.keys@.len(),
                v@.len() == i,
                forall|j: int|
                    0 <= j < i ==> action_steps(v@)[j] == (
                        self.keys@[j].0@,
                        self.keys@[j].1@,
                        Some(self.keys@[j].2@),
                    ),
            decreases self.keys@.len() - i,
        {
            let k = &self.keys[i];
            let ghost before = v@;
            let c0 = k.0.clone();
            let c1 = k.1.clone();
            let c2 = k.2.clone();
            let ghost views = (c0@, c1@, Some(c2@));
            v.push(KeyAction::Add((c0, c1, c2)));
            proof {
                assert forall|j: int| 0 <= j < i implies action_steps(v@)[j] == action_steps(before)[j] by {
                    assert(v@[j] == before[j]);
                }
                assert(action_steps(v@)[i as int] == views);
                assert(*k == self.keys@[i as int]);
                assert(views == (self.keys@[i as int].0@, self.keys@[i as int].1@, Some(
                    self.keys@[i as int].2@,
                )));
                assert forall|j: int| 0 <= j < i + 1 implies action_steps(v@)[j] == (
                    self.keys@[j].0@,
                    self.keys@[j].1@,
                    Some(self.keys@[j].2@),
                ) by {
                    if j < i {
                        assert(action_steps(before)[j] == (
                            self.keys@[j].0@,
                            self.keys@[j].1@,
                            Some(self.keys@[j].2@),
                        ));
                    }
                }
            }
            i = i + 1;
        }
        assert(action_steps(v@) =~= self.key_bindings().map_values(
            |k: (Seq<char>, Seq<char>, Seq<char>)| (k.0, k.1, Some(k.2)),
        ));
        v
    }

    /// `mist.keys.set(mode, keys, command)`: one more key binding, after the others.
    pub fn add_key(&mut self, mode: String, key_set: String, command: String)
        ensures
            final(self).theme_name() == old(self).theme_name(),
            final(self).key_bindings() == old(self).key_bindings().push(
                (mode@, key_set@, command@),
            ),
    {
        let ghost old_keys = self.keys@;
        self.keys.push((mode, key_set, command));
        proof {
            assert(self.keys@ == old_keys.push((mode, key_set, command)));
        }
        assert(self.key_bindings() =~= old(self).key_bindings().push((mode@, key_set@, command@)));
    }
}

} // verus!
