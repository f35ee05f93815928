use snake::game::{GameComponent, Position, FOOD_TOKEN, PLAYER_TOKEN, POSITION_TOKEN};
use snake::storage::{Storage, StorageError};

fn pos(x: i32, y: i32) -> GameComponent {
    GameComponent::Position(Position(x, y))
}

fn pos_of(c: &GameComponent) -> Position {
    match c {
        GameComponent::Position(p) => *p,
        _ => panic!("expected a position component"),
    }
}

#[test]
fn insertion_order_is_kept() {
    let mut s: Storage<GameComponent> = Storage::new();
    s.add(pos(1, 10));
    s.add(pos(2, 20));
    s.add(pos(3, 30));
    let all = s.get_all(POSITION_TOKEN).expect("token must be registered");
    assert_eq!(all.len(), 3);
    assert_eq!(pos_of(&all[0]), Position(1, 10));
    assert_eq!(pos_of(&all[1]), Position(2, 20));
    assert_eq!(pos_of(&all[2]), Position(3, 30));
}

#[test]
fn get_all_of_unregistered_token_is_absent() {
    let s: Storage<GameComponent> = Storage::new();
    assert!(s.get_all(POSITION_TOKEN).is_none());
    assert!(s.get(POSITION_TOKEN, 0).is_none());
    assert!(s.get_first(POSITION_TOKEN).is_none());
}

#[test]
fn positional_access() {
    let mut s: Storage<GameComponent> = Storage::new();
    s.add(pos(7, 0));
    s.add(pos(8, 0));
    assert_eq!(pos_of(s.get(POSITION_TOKEN, 1).unwrap()), Position(8, 0));
    assert_eq!(pos_of(s.get_first(POSITION_TOKEN).unwrap()), Position(7, 0));
    assert!(s.get(POSITION_TOKEN, 2).is_none());
}

#[test]
fn get_mut_updates_in_place() {
    let mut s: Storage<GameComponent> = Storage::new();
    s.add(pos(1, 1));
    s.add(pos(2, 2));
    if let Some(c) = s.get_mut(POSITION_TOKEN, 1) {
        *c = pos(9, 9);
    } else {
        panic!("expected an instance at index 1");
    }
    assert_eq!(pos_of(s.get(POSITION_TOKEN, 1).unwrap()), Position(9, 9));
    assert_eq!(pos_of(s.get(POSITION_TOKEN, 0).unwrap()), Position(1, 1));
    assert!(s.get_mut(POSITION_TOKEN, 5).is_none());
    assert!(s.get_first_mut(FOOD_TOKEN).is_none());
}

#[test]
fn get_all_mut_allows_in_place_mutation() {
    let mut s: Storage<GameComponent> = Storage::new();
    s.add(pos(1, 1));
    s.add(pos(2, 2));
    let items = s.get_all_mut(POSITION_TOKEN).unwrap();
    items[0] = pos(5, 5);
    assert_eq!(pos_of(s.get_first(POSITION_TOKEN).unwrap()), Position(5, 5));
    assert!(s.get_all_mut(PLAYER_TOKEN).is_none());
}

#[test]
fn removal_shifts_later_instances_down() {
    let mut s: Storage<GameComponent> = Storage::new();
    s.add(pos(1, 0));
    s.add(pos(2, 0));
    s.add(pos(3, 0));
    let removed = s.remove(POSITION_TOKEN, 1).expect("index 1 must exist");
    assert_eq!(pos_of(&removed), Position(2, 0));
    let all = s.get_all(POSITION_TOKEN).unwrap();
    assert_eq!(all.len(), 2);
    assert_eq!(pos_of(&all[0]), Position(1, 0));
    assert_eq!(pos_of(&all[1]), Position(3, 0));
}

#[test]
fn removal_misses_are_told_apart() {
    let mut s: Storage<GameComponent> = Storage::new();
    s.add(pos(1, 0));
    assert!(matches!(s.remove(FOOD_TOKEN, 0), Err(StorageError::NoSuchType)));
    assert!(matches!(s.remove(POSITION_TOKEN, 1), Err(StorageError::OutOfBounds)));
    assert_eq!(s.get_all(POSITION_TOKEN).unwrap().len(), 1);
}

#[test]
fn several_mut_views_are_disjoint() {
    let mut s: Storage<GameComponent> = Storage::new();
    s.add(pos(1, 1));
    s.add(GameComponent::Food(snake::game::Food::new(Position(4, 4))));
    let (positions, foods) = s
        .get_several_mut(POSITION_TOKEN, FOOD_TOKEN)
        .expect("both tokens are registered and distinct");
    assert_eq!(positions.len(), 1);
    assert_eq!(foods.len(), 1);
    // Mutating through one view is visible only under its own token.
    positions[0] = pos(6, 6);
    assert_eq!(pos_of(s.get_first(POSITION_TOKEN).unwrap()), Position(6, 6));
    match s.get_first(FOOD_TOKEN).unwrap() {
        GameComponent::Food(f) => assert_eq!(*f.position(), Position(4, 4)),
        _ => panic!("expected food"),
    }
}

#[test]
fn several_mut_rejects_aliasing_and_missing_tokens() {
    let mut s: Storage<GameComponent> = Storage::new();
    s.add(pos(1, 1));
    assert!(s.get_several_mut(POSITION_TOKEN, POSITION_TOKEN).is_none());
    assert!(s.get_several_mut(POSITION_TOKEN, FOOD_TOKEN).is_none());
    assert!(s.get_several_mut(FOOD_TOKEN, POSITION_TOKEN).is_none());
}
