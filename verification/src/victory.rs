use vstd::prelude::*;

verus! {

/// The three key tokens each player owns.
#[derive(Clone, Copy, PartialEq, Eq, Debug, Hash, Structural)]
pub enum KeyColor {
    Red,
    Blue,
    Yellow,
}

/// One key token: its color and whether it has been flipped to its forged side.
#[derive(Clone, Copy, PartialEq, Eq, Debug, Structural)]
pub struct Key {
    pub color: KeyColor,
    pub forged: bool,
}

/// The key tokens of one player.
pub struct PlayerKeys {
    pub keys: [Key; 3],
}

/// 1 for a forged key, 0 otherwise.
pub open spec fn forged_indicator(k: Key) -> nat {
    if k.forged { 1 } else { 0 }
}

/// Index of the first key of the given color, if any.
pub open spec fn first_key_of(keys: Seq<Key>, color: KeyColor) -> Option<int> {
    if keys[0].color == color {
        Some(0)
    } else if keys[1].color == color {
        Some(1)
    } else if keys[2].color == color {
        Some(2)
    } else {
        None
    }
}

/// The keys after setting the forged side of the first key of `color` to `forged`.
pub open spec fn set_forged(keys: Seq<Key>, color: KeyColor, forged: bool) -> Seq<Key> {
    match first_key_of(keys, color) {
        Some(i) => keys.update(i, Key { color: keys[i].color, forged }),
        None => keys,
    }
}

/// Number of forged keys among the three.
pub open spec fn count_forged(keys: Seq<Key>) -> nat {
    forged_indicator(keys[0]) + forged_indicator(keys[1]) + forged_indicator(keys[2])
}

/// Whether some key of the given color is forged.
pub open spec fn color_forged(keys: Seq<Key>, color: KeyColor) -> bool {
    exists|i: int| 0 <= i < 3 && #[trigger] keys[i].color == color && keys[i].forged
}

/// Colors of the unforged keys, in key order.
pub open spec fn unforged_colors(keys: Seq<Key>) -> Seq<KeyColor> {
    (if !keys[0].forged { seq![keys[0].color] } else { Seq::empty() })
    + (if !keys[1].forged { seq![keys[1].color] } else { Seq::empty() })
    + (if !keys[2].forged { seq![keys[2].color] } else { Seq::empty() })
}

/// The starting keys: red, blue, yellow, all unforged.
pub open spec fn initial_keys() -> Seq<Key> {
    seq![
        Key { color: KeyColor::Red, forged: false },
        Key { color: KeyColor::Blue, forged: false },
        Key { color: KeyColor::Yellow, forged: false },
    ]
}

impl View for PlayerKeys {
    type V = Seq<Key>;

    open spec fn view(&self) -> Seq<Key> {
        self.keys@
    }
}

impl PlayerKeys {
    pub fn new() -> (pk: Self)
        ensures
            pk@ == initial_keys(),
    {
        let pk = Self {
            keys: [
                Key { color: KeyColor::Red, forged: false },
                Key { color: KeyColor::Blue, forged: false },
                Key { color: KeyColor::Yellow, forged: false },
            ],
        };
        assert(pk@ =~= initial_keys());
        pk
    }

    fn find_color(&self, color: KeyColor) -> (r: Option<usize>)
        ensures
            match first_key_of(self@, color) {
                Some(i) => r == Some(i as usize),
                None => r is None,
            },
    {
        if self.keys[0].color == color {
            Some(0)
        } else if self.keys[1].color == color {
            Some(1)
        } else if self.keys[2].color == color {
            Some(2)
        } else {
            None
        }
    }

    /// Forge the key of the given color.
    pub fn forge(&mut self, color: KeyColor)
        ensures
            final(self)@ == set_forged(old(self)@, color, true),
    {
        if let Some(i) = self.find_color(color) {
            let k = Key { color: self.keys[i].color, forged: true };
            self.keys[i] = k;
        }
        assert(self@ =~= set_forged(old(self)@, color, true));
    }

    /// Unforge the key of the given color. No-op if already unforged.
    pub fn unforge(&mut self, color: KeyColor)
        ensures
            final(self)@ == set_forged(old(self)@, color, false),
    {
        if let Some(i) = self.find_color(color) {
            let k = Key { color: self.keys[i].color, forged: false };
            self.keys[i] = k;
        }
        assert(self@ =~= set_forged(old(self)@, color, false));
    }

    /// Count of forged keys.
    pub fn forged_count(&self) -> (n: u8)
        ensures
            n == count_forged(self@),
    {
        let mut n: u8 = 0;
        if self.keys[0].forged {
            n = n + 1;
        }
        if self.keys[1].forged {
            n = n + 1;
        }
        if self.keys[2].forged {
            n = n + 1;
        }
        n
    }

    /// True if all 3 keys are forged — immediate win.
    pub fn has_won(&self) -> (b: bool)
        ensures
            b == (count_forged(self@) == 3),
    {
        self.forged_count() == 3
    }

    /// True if the specific key is forged.
    pub fn is_forged(&self, color: KeyColor) -> (b: bool)
        ensures
            b == color_forged(self@, color),
    {
        let r = (self.keys[0].color == color && self.keys[0].forged)
            || (self.keys[1].color == color && self.keys[1].forged)
            || (self.keys[2].color == color && self.keys[2].forged);
        proof {
            if r {
                if self.keys[0].color == color && self.keys[0].forged {
                    assert(self@[0].color == color);
                } else if self.keys[1].color == color && self.keys[1].forged {
                    assert(self@[1].color == color);
                } else {
                    assert(self@[2].color == color);
                }
            }
        }
        r
    }

    /// Returns colors of all unforged keys.
    pub fn unforged_keys(&self) -> (v: Vec<KeyColor>)
        ensures
            v@ == unforged_colors(self@),
    {
        let mut v: Vec<KeyColor> = Vec::new();
        if !self.keys[0].forged {
            v.push(self.keys[0].color);
        }
        if !self.keys[1].forged {
            v.push(self.keys[1].color);
        }
        if !self.keys[2].forged {
            v.push(self.keys[2].color);
        }
        assert(v@ =~= unforged_colors(self@));
        v
    }
}

} // verus!

verus! {

/// Unforging a key right after forging it gives back the keys as they were, when that
/// key was unforged before.
pub proof fn law_unforge_undoes_forge(keys: Seq<Key>, color: KeyColor)
    requires
        keys.len() == 3,
        !color_forged(keys, color),
    ensures
        set_forged(set_forged(keys, color, true), color, false) == keys,
{
    let k1 = set_forged(keys, color, true);
    match first_key_of(keys, color) {
        Some(i) => {
            assert(keys[i].color == color);
            assert(first_key_of(k1, color) == Some(i));
            assert(set_forged(k1, color, false) =~= keys);
        },
        None => {},
    }
}

/// Forging an already forged key changes nothing.
pub proof fn law_forge_idempotent(keys: Seq<Key>, color: KeyColor)
    requires
        keys.len() == 3,
    ensures
        set_forged(set_forged(keys, color, true), color, true) == set_forged(keys, color, true),
{
    let k1 = set_forged(keys, color, true);
    match first_key_of(keys, color) {
        Some(i) => {
            assert(first_key_of(k1, color) == Some(i));
            assert(set_forged(k1, color, true) =~= k1);
        },
        None => {},
    }
}

/// Three keys of three different colors.
pub open spec fn keys_ok(keys: Seq<Key>) -> bool {
    &&& keys.len() == 3
    &&& keys[0].color != keys[1].color
    &&& keys[0].color != keys[2].color
    &&& keys[1].color != keys[2].color
}

/// Forging flips at most one key to forged, and unforging at most one back; so the
/// count of forged keys moves by at most one, and it never exceeds three. A player
/// whose forged key is unforged loses one forged key, so a win is revoked.
pub proof fn law_forge_moves_count_by_one(keys: Seq<Key>, color: KeyColor)
    requires
        keys_ok(keys),
    ensures
        count_forged(keys) <= count_forged(set_forged(keys, color, true)) <= count_forged(keys) + 1,
        count_forged(keys) - 1 <= count_forged(set_forged(keys, color, false)) <= count_forged(keys),
        color_forged(keys, color) ==> count_forged(set_forged(keys, color, false)) == count_forged(keys) - 1,
        !color_forged(keys, color) && first_key_of(keys, color) is Some ==> count_forged(
            set_forged(keys, color, true),
        ) == count_forged(keys) + 1,
        count_forged(keys) <= 3,
        keys_ok(set_forged(keys, color, true)),
        keys_ok(set_forged(keys, color, false)),
{
    if color_forged(keys, color) {
        let j = choose|j: int| 0 <= j < 3 && #[trigger] keys[j].color == color && keys[j].forged;
        assert(first_key_of(keys, color) == Some(j));
    }
    if let Some(i) = first_key_of(keys, color) {
        if !color_forged(keys, color) {
            assert(!keys[i].forged);
        }
    }
}

/// The starting keys are three keys of different colors, none forged.
pub proof fn law_initial_keys()
    ensures
        keys_ok(initial_keys()),
        count_forged(initial_keys()) == 0,
        unforged_colors(initial_keys()) == seq![KeyColor::Red, KeyColor::Blue, KeyColor::Yellow],
{
    assert(unforged_colors(initial_keys()) =~= seq![KeyColor::Red, KeyColor::Blue, KeyColor::Yellow]);
}

} // verus!
