//! The main menu's own state: which prototype it is pointing at.
//!
//! The part of the menu that can be wrong lives here, where it is proved;
//! the part that only draws lives in the binary.

use vstd::prelude::*;

verus! {

/// One prototype in the collection.
#[derive(Clone, Copy, Debug, PartialEq, Eq, Hash, Structural)]
pub enum GameId {
    /// A journey home whose rules are set by its music.
    Leitmotif,
}

/// How many prototypes the collection holds.
pub const GAME_COUNT: usize = 1;

/// The prototypes in the order the menu lists them.
pub open spec fn game_list() -> Seq<GameId> {
    seq![GameId::Leitmotif]
}

/// The display name of a prototype.
pub open spec fn game_name(id: GameId) -> Seq<char> {
    match id {
        GameId::Leitmotif => "Leitmotif"@,
    }
}

impl GameId {
    /// Every prototype, in the order the menu lists them.
    pub const ALL: [GameId; 1] = [GameId::Leitmotif];

    /// Display name, the one piece of text the menu shows.
    pub fn name(self) -> (name: &'static str)
        ensures
            name@ == game_name(self),
    {
        match self {
            GameId::Leitmotif => "Leitmotif",
        }
    }
}

/// Where a move of `delta` entries from entry `index` lands, wrapping at
/// both ends.
pub open spec fn moved(index: int, delta: int) -> int {
    (index + delta) % (GAME_COUNT as int)
}

/// Where `steps` moves of one entry down from the first entry land.
pub open spec fn walked(steps: nat) -> int
    decreases steps,
{
    if steps == 0 {
        0
    } else {
        moved(walked((steps - 1) as nat), 1)
    }
}

/// Where the menu is pointing.
#[derive(Clone, Copy, Debug, PartialEq, Eq, Structural)]
pub struct Menu {
    index: usize,
}

impl Menu {
    /// The pointer always rests on an entry.
    #[verifier::type_invariant]
    spec fn pointer_on_list(self) -> bool {
        self.index < GAME_COUNT
    }

    /// Position of the pointer, in the model.
    pub closed spec fn spec_index(self) -> usize {
        self.index
    }

    /// A menu pointing at the first prototype.
    pub fn new() -> (menu: Menu)
        ensures
            menu.spec_index() == 0,
    {
        Menu { index: 0 }
    }

    /// How many prototypes there are to choose between.
    pub fn len() -> (n: usize)
        ensures
            n == GAME_COUNT,
            n == game_list().len(),
    {
        GAME_COUNT
    }

    /// Position of the pointer, for the renderer.
    pub fn index(self) -> (i: usize)
        ensures
            i == self.spec_index(),
            i < GAME_COUNT,
    {
        proof {
            use_type_invariant(&self);
        }
        self.index
    }

    /// The prototype under the pointer.
    pub fn selected(self) -> (id: GameId)
        ensures
            id == game_list()[self.spec_index() as int],
    {
        proof {
            use_type_invariant(&self);
        }
        let all = GameId::ALL;
        all[self.index]
    }

    /// Move the pointer by `delta` entries, wrapping at both ends.
    pub fn move_by(&mut self, delta: i32)
        ensures
            final(self).spec_index() as int == moved(old(self).spec_index() as int, delta as int),
    {
        proof {
            use_type_invariant(&*self);
        }
        let len: i64 = GAME_COUNT as i64;
        let sum: i64 = self.index as i64 + delta as i64;
        match sum.checked_rem_euclid(len) {
            Some(r) => {
                self.index = r as usize;
            },
            None => {},
        }
    }

    /// Point at `index`, ignoring one that is past the end.
    pub fn point_at(&mut self, index: usize)
        ensures
            index < GAME_COUNT ==> final(self).spec_index() == index,
            index >= GAME_COUNT ==> *final(self) == *old(self),
    {
        if index < GAME_COUNT {
            self.index = index;
        }
    }
}

/// A menu is nothing but where it points: two menus pointing at the same
/// entry are the same menu.
pub proof fn lemma_menu_is_its_pointer(a: Menu, b: Menu)
    requires
        a.spec_index() == b.spec_index(),
    ensures
        a == b,
{
}

/// A move is undone by its opposite: from any entry, moving by `delta`
/// and then by `-delta` comes back to it.
pub proof fn lemma_move_undone(index: int, delta: int)
    requires
        0 <= index < GAME_COUNT,
    ensures
        moved(moved(index, delta), -delta) == index,
{
}

/// Stepping down one entry at a time from the first visits the entries in
/// order, wrapping: after `steps` moves the pointer is on entry
/// `steps % GAME_COUNT`, so every entry is reached and a whole lap comes
/// back to the first.
pub proof fn lemma_walk_visits_in_order(steps: nat)
    ensures
        walked(steps) == (steps as int) % (GAME_COUNT as int),
        0 <= walked(steps) < GAME_COUNT,
    decreases steps,
{
    if steps > 0 {
        lemma_walk_visits_in_order((steps - 1) as nat);
    }
}

impl Default for Menu {
    fn default() -> (menu: Menu)
        ensures
            menu.spec_index() == 0,
    {
        Menu::new()
    }
}

} // verus!
