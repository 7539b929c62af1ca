use game_prototypes::shell::{GameId, Menu};

#[test]
fn a_new_menu_points_at_the_first_prototype() {
    let menu = Menu::new();
    assert_eq!(menu.index(), 0);
    assert_eq!(menu.selected(), GameId::ALL[0]);
    assert_eq!(menu, Menu::default());
}

#[test]
fn moving_wraps_at_both_ends() {
    let mut menu = Menu::new();
    // Walk the whole list twice in each direction and stay in bounds.
    for step in 0..(Menu::len() * 2) {
        assert_eq!(menu.index(), step % Menu::len());
        menu.move_by(1);
    }
    assert_eq!(menu.index(), 0);
    menu.move_by(-1);
    assert_eq!(
        menu.index(),
        Menu::len() - 1,
        "moving up from the top wraps"
    );
    menu.move_by(1);
    assert_eq!(menu.index(), 0, "moving down from the bottom wraps");
}

#[test]
fn a_big_jump_still_lands_on_an_entry() {
    let mut menu = Menu::new();
    for delta in [-97, -1, 0, 1, 3, 1000] {
        menu.move_by(delta);
        assert!(menu.index() < Menu::len(), "landed on {}", menu.index());
    }
}

#[test]
fn pointing_past_the_end_is_ignored() {
    let mut menu = Menu::new();
    menu.point_at(Menu::len() - 1);
    assert_eq!(menu.index(), Menu::len() - 1);
    menu.point_at(Menu::len());
    menu.point_at(usize::MAX);
    assert_eq!(menu.index(), Menu::len() - 1, "an off-list hover moved it");
}

#[test]
fn every_prototype_is_reachable_and_named() {
    let mut menu = Menu::new();
    let mut seen = Vec::new();
    for _ in 0..Menu::len() {
        let id = menu.selected();
        assert!(!id.name().is_empty(), "{id:?} has no name");
        seen.push(id);
        menu.move_by(1);
    }
    assert_eq!(seen, GameId::ALL, "the menu does not visit every entry");
}

#[test]
fn the_extreme_jumps_wrap_too() {
    let mut menu = Menu::new();
    menu.move_by(i32::MIN);
    assert_eq!(menu.index(), 0);
    menu.move_by(i32::MAX);
    assert_eq!(menu.index(), 0);
    assert_eq!(GameId::Leitmotif.name(), "Leitmotif");
}

#[test]
fn a_move_is_undone_by_its_opposite() {
    for delta in [-7, -1, 0, 1, 3, i32::MAX] {
        let mut menu = Menu::new();
        let before = menu;
        menu.move_by(delta);
        menu.move_by(-delta);
        assert_eq!(menu, before, "delta {delta}");
    }
}

#[test]
fn pointing_past_the_end_leaves_the_menu_as_it_was() {
    let mut menu = Menu::new();
    let before = menu;
    menu.point_at(Menu::len());
    menu.point_at(usize::MAX);
    assert_eq!(menu, before);
}
