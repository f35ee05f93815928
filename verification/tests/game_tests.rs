use snake::game::{
    Direction, Food, Game, GameComponent, Player, Position, CELL_COUNT, FOOD_TOKEN, PLAYER_TOKEN,
};
use snake::scheduler::Scheduler;
use snake::storage::Storage;

fn player_in(storage: &Storage<GameComponent>) -> &Player {
    match storage.get_first(PLAYER_TOKEN) {
        Some(GameComponent::Player(p)) => p,
        _ => panic!("expected a stored snake"),
    }
}

fn store_player(storage: &mut Storage<GameComponent>, player: Player) {
    storage.add(GameComponent::Player(player));
}

#[test]
fn init_inserts_the_starting_snake() {
    let mut storage: Storage<GameComponent> = Storage::new();
    Player::init(&mut storage);
    let p = player_in(&storage);
    assert_eq!(p.position, Position(0, 0));
    assert_eq!(p.direction, Direction::Still);
    assert!(p.tail.is_empty());
}

#[test]
fn moving_at_grid_moves_head_and_shifts_tail() {
    let mut storage: Storage<GameComponent> = Storage::new();
    store_player(
        &mut storage,
        Player {
            position: Position(3, 3),
            direction: Direction::Right,
            tail: vec![Position(2, 3), Position(1, 3)],
        },
    );
    Player::moving_at_grid(&mut storage);
    let p = player_in(&storage);
    assert_eq!(p.position, Position(4, 3));
    assert_eq!(p.tail, vec![Position(3, 3), Position(2, 3)]);

    Player::moving_at_grid(&mut storage);
    let p = player_in(&storage);
    assert_eq!(p.position, Position(5, 3));
    assert_eq!(p.tail, vec![Position(4, 3), Position(3, 3)]);
}

#[test]
fn moving_at_grid_standing_still_keeps_the_head() {
    let mut storage: Storage<GameComponent> = Storage::new();
    store_player(
        &mut storage,
        Player { position: Position(3, 3), direction: Direction::Still, tail: vec![] },
    );
    Player::moving_at_grid(&mut storage);
    assert_eq!(player_in(&storage).position, Position(3, 3));
    // Without a stored snake the call leaves the storage alone.
    let mut empty: Storage<GameComponent> = Storage::new();
    Player::moving_at_grid(&mut empty);
    assert!(empty.get_all(PLAYER_TOKEN).is_none());
}

#[test]
fn moving_up_and_down_changes_the_row() {
    let mut storage: Storage<GameComponent> = Storage::new();
    store_player(
        &mut storage,
        Player { position: Position(5, 5), direction: Direction::Top, tail: vec![] },
    );
    Player::moving_at_grid(&mut storage);
    assert_eq!(player_in(&storage).position, Position(5, 4));
    if let Some(GameComponent::Player(p)) = storage.get_first_mut(PLAYER_TOKEN) {
        p.direction = Direction::Down;
    }
    Player::moving_at_grid(&mut storage);
    Player::moving_at_grid(&mut storage);
    assert_eq!(player_in(&storage).position, Position(5, 6));
}

#[test]
fn eat_removes_covered_food_and_grows_the_tail() {
    let mut storage: Storage<GameComponent> = Storage::new();
    store_player(
        &mut storage,
        Player { position: Position(5, 5), direction: Direction::Right, tail: vec![] },
    );
    storage.add(GameComponent::Food(Food::new(Position(1, 1))));
    storage.add(GameComponent::Food(Food::new(Position(5, 5))));

    Player::eat(&mut storage);

    let foods = storage.get_all(FOOD_TOKEN).unwrap();
    assert_eq!(foods.len(), 1);
    match &foods[0] {
        GameComponent::Food(f) => assert_eq!(*f.position(), Position(1, 1)),
        _ => panic!("expected food"),
    }
    // The first tail segment copies the head cell.
    assert_eq!(player_in(&storage).tail, vec![Position(5, 5)]);

    // A second call finds no covered food and changes nothing.
    Player::eat(&mut storage);
    assert_eq!(storage.get_all(FOOD_TOKEN).unwrap().len(), 1);
    assert_eq!(player_in(&storage).tail.len(), 1);
}

#[test]
fn eat_with_tail_copies_the_tip() {
    let mut storage: Storage<GameComponent> = Storage::new();
    store_player(
        &mut storage,
        Player {
            position: Position(2, 2),
            direction: Direction::Left,
            tail: vec![Position(3, 2), Position(4, 2)],
        },
    );
    storage.add(GameComponent::Food(Food::new(Position(2, 2))));
    Player::eat(&mut storage);
    assert_eq!(
        player_in(&storage).tail,
        vec![Position(3, 2), Position(4, 2), Position(4, 2)]
    );
    assert_eq!(storage.get_all(FOOD_TOKEN).unwrap().len(), 0);
}

#[test]
fn controls_refuses_a_reversal() {
    let mut p = Player { position: Position(0, 0), direction: Direction::Right, tail: vec![] };
    p.controls(Direction::Left);
    assert_eq!(p.direction, Direction::Right);
    p.controls(Direction::Top);
    assert_eq!(p.direction, Direction::Top);
    p.controls(Direction::Down);
    assert_eq!(p.direction, Direction::Top);
    p.controls(Direction::Right);
    assert_eq!(p.direction, Direction::Right);
}

#[test]
fn out_bounds_detects_leaving_the_field() {
    let inside = Player { position: Position(0, 0), direction: Direction::Still, tail: vec![] };
    assert!(!inside.out_bounds());
    let far = Player {
        position: Position(CELL_COUNT - 1, CELL_COUNT - 1),
        direction: Direction::Still,
        tail: vec![],
    };
    assert!(!far.out_bounds());
    let left = Player { position: Position(-1, 0), direction: Direction::Still, tail: vec![] };
    assert!(left.out_bounds());
    let below = Player {
        position: Position(0, CELL_COUNT),
        direction: Direction::Still,
        tail: vec![],
    };
    assert!(below.out_bounds());
}

#[test]
fn cannibalism_detects_head_on_tail() {
    let biting = Player {
        position: Position(4, 4),
        direction: Direction::Left,
        tail: vec![Position(5, 4), Position(4, 4)],
    };
    assert!(biting.cannibalism());
    let fine = Player {
        position: Position(4, 4),
        direction: Direction::Left,
        tail: vec![Position(5, 4), Position(6, 4)],
    };
    assert!(!fine.cannibalism());
}

#[test]
fn spawn_keeps_the_food_population_at_its_bound() {
    let mut storage: Storage<GameComponent> = Storage::new();
    Food::spawn(&mut storage);
    let foods = storage.get_all(FOOD_TOKEN).unwrap();
    assert_eq!(foods.len(), 1);
    match &foods[0] {
        GameComponent::Food(f) => {
            let p = *f.position();
            assert!(0 <= p.0 && p.0 < CELL_COUNT);
            assert!(0 <= p.1 && p.1 < CELL_COUNT);
        }
        _ => panic!("expected food"),
    }
    Food::spawn(&mut storage);
    assert_eq!(storage.get_all(FOOD_TOKEN).unwrap().len(), 1);
}

#[test]
fn random_positions_respect_their_ranges() {
    // A singleton range pins the drawn value exactly.
    let p = Position::rand(3, 4, 7, 8);
    assert_eq!(p, Position(3, 7));
    for _ in 0..50 {
        let q = Position::rand(-2, 3, 10, 12);
        assert!(-2 <= q.0 && q.0 < 3);
        assert!(10 <= q.1 && q.1 < 12);
    }
}

#[test]
fn game_plugin_registers_and_plays() {
    let mut scheduler: Scheduler<snake::game::GameSystem> = Scheduler::new();
    scheduler.add_plugin::<Game>();
    let mut storage: Storage<GameComponent> = Storage::new();
    scheduler.run(&mut storage);
    // The startup unit inserted the snake; the gated spawner placed food.
    let p = player_in(&storage);
    assert_eq!(p.position, Position(0, 0));
    assert_eq!(storage.get_all(FOOD_TOKEN).unwrap().len(), 1);
}
