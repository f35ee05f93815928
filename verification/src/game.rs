use crate::scheduler::{Plugin, Scheduler, System};
use crate::storage::{Component, Storage, Token};
use vstd::prelude::*;

verus! {

/// Number of grid cells along each axis of the playing field.
pub const CELL_COUNT: i32 = 16;

/// Largest number of food instances kept in storage at once.
pub const MAX_FOOD: usize = 1;

/// The snake's starting cell.
pub const SNAKE_X: i32 = 0;

/// See `SNAKE_X`.
pub const SNAKE_Y: i32 = 0;

/// Minimum re-invocation interval of the snake's stepping systems, in
/// milliseconds.
pub const SNAKE_STEP_INTERVAL_MS: u64 = 125;

/// Minimum re-invocation interval of the food spawner, in milliseconds.
pub const FOOD_SPAWN_INTERVAL_MS: u64 = 125;

/// Token of the `Player` component type.
pub const PLAYER_TOKEN: Token = 1;

/// Token of the `Food` component type.
pub const FOOD_TOKEN: Token = 2;

/// Token of the bare `Position` component type.
pub const POSITION_TOKEN: Token = 3;

/// A grid cell, as a column and a row index.
#[derive(Clone, Copy, Debug, PartialEq, Eq, Structural)]
pub struct Position(pub i32, pub i32);

/// Whether a position lies on the playing field.
pub open spec fn in_grid(p: Position) -> bool {
    0 <= p.0 < CELL_COUNT && 0 <= p.1 < CELL_COUNT
}

/// Relies on rand::thread_rng and rand::Rng::gen_range: a value drawn
/// uniformly from the non-empty half-open range `lo..hi`; `gen_range` panics
/// on an empty range, which the precondition rules out.
#[verifier::external_body]
fn random_coord(lo: i32, hi: i32) -> (r: i32)
    requires
        lo < hi,
    ensures
        lo <= r < hi,
{
    rand::Rng::gen_range(&mut rand::thread_rng(), lo..hi)
}

impl Position {
    /// A position with each coordinate drawn uniformly from its own
    /// non-empty half-open range.
    pub fn rand(x_lo: i32, x_hi: i32, y_lo: i32, y_hi: i32) -> (p: Position)
        requires
            x_lo < x_hi,
            y_lo < y_hi,
        ensures
            x_lo <= p.0 < x_hi,
            y_lo <= p.1 < y_hi,
    {
        Position(random_coord(x_lo, x_hi), random_coord(y_lo, y_hi))
    }
}

/// A movement direction on the grid; `Direction::Still` stands still.
#[derive(Clone, Copy, Debug, PartialEq, Eq, Structural)]
pub enum Direction {
    Top,
    Down,
    Left,
    Right,
    Still,
}

/// The horizontal cell delta of one step in direction `d`.
pub open spec fn dx(d: Direction) -> int {
    match d {
        Direction::Left => -1,
        Direction::Right => 1,
        _ => 0,
    }
}

/// The vertical cell delta of one step in direction `d`.
pub open spec fn dy(d: Direction) -> int {
    match d {
        Direction::Top => -1,
        Direction::Down => 1,
        _ => 0,
    }
}

/// The reverse of a movement direction; standing still is its own reverse.
pub open spec fn spec_opposite(d: Direction) -> Direction {
    match d {
        Direction::Top => Direction::Down,
        Direction::Down => Direction::Top,
        Direction::Left => Direction::Right,
        Direction::Right => Direction::Left,
        Direction::Still => Direction::Still,
    }
}

/// The snake: its head cell, its facing direction, and its tail segments
/// ordered from the segment just behind the head to the tip.
#[derive(Debug)]
pub struct Player {
    pub position: Position,
    pub direction: Direction,
    pub tail: Vec<Position>,
}

impl Default for Player {
    /// The starting snake: at the starting cell, standing still, no tail.
    fn default() -> (p: Self)
        ensures
            p.position == (Position(SNAKE_X, SNAKE_Y)),
            p.direction == Direction::Still,
            p.tail@ == Seq::<Position>::empty(),
    {
        Player {
            position: Position(SNAKE_X, SNAKE_Y),
            direction: Direction::Still,
            tail: Vec::new(),
        }
    }
}

impl Player {
    /// The tail after one step: each segment takes its predecessor's place
    /// and the first segment takes the old head cell; the length is kept.
    pub open spec fn spec_shift(pre: Player) -> Seq<Position> {
        if pre.tail@.len() == 0 {
            pre.tail@
        } else {
            seq![pre.position] + pre.tail@.drop_last()
        }
    }

    /// `post` is `pre` advanced by one grid step: the head moved one cell in
    /// the facing direction, the tail shifted after it, the facing kept.
    pub open spec fn advanced_from(post: Player, pre: Player) -> bool {
        &&& post.position.0 == pre.position.0 + dx(pre.direction)
        &&& post.position.1 == pre.position.1 + dy(pre.direction)
        &&& post.direction == pre.direction
        &&& post.tail@ == Self::spec_shift(pre)
    }

    /// Whether one more step stays within the machine range of coordinates.
    pub open spec fn can_advance(pre: Player) -> bool {
        &&& i32::MIN < pre.position.0 < i32::MAX
        &&& i32::MIN < pre.position.1 < i32::MAX
    }

    /// Advances the snake by one grid step.
    pub fn advance(&mut self)
        requires
            Self::can_advance(*old(self)),
        ensures
            Self::advanced_from(*final(self), *old(self)),
    {
        if self.tail.len() > 0 {
            self.tail.pop();
            self.tail.insert(0, self.position);
            proof {
                assert(self.tail@ =~= Self::spec_shift(*old(self)));
            }
        }
        match self.direction {
            Direction::Left => {
                self.position.0 = self.position.0 - 1;
            },
            Direction::Right => {
                self.position.0 = self.position.0 + 1;
            },
            _ => {},
        }
        match self.direction {
            Direction::Top => {
                self.position.1 = self.position.1 - 1;
            },
            Direction::Down => {
                self.position.1 = self.position.1 + 1;
            },
            _ => {},
        }
    }

    /// The cell a newly grown segment copies: the tail's tip, or the head
    /// cell while there is no tail yet.
    pub open spec fn growth_segment(pre: Player) -> Position {
        if pre.tail@.len() == 0 {
            pre.position
        } else {
            pre.tail@.last()
        }
    }

    /// Appends one tail segment at the tip.
    pub fn grow(&mut self)
        ensures
            final(self).position == old(self).position,
            final(self).direction == old(self).direction,
            final(self).tail@ == old(self).tail@.push(Self::growth_segment(*old(self))),
    {
        let segment: Position = if self.tail.len() == 0 {
            self.position
        } else {
            self.tail[self.tail.len() - 1]
        };
        self.tail.push(segment);
    }

    /// Applies a requested turn: the request wins unless it would reverse
    /// the current direction, in which case the facing is kept.
    pub fn controls(&mut self, requested: Direction)
        requires
            requested != Direction::Still,
        ensures
            final(self).position == old(self).position,
            final(self).tail@ == old(self).tail@,
            final(self).direction == (if spec_opposite(requested) == old(self).direction {
                old(self).direction
            } else {
                requested
            }),
    {
        let blocked = match requested {
            Direction::Top => self.direction == Direction::Down,
            Direction::Down => self.direction == Direction::Top,
            Direction::Left => self.direction == Direction::Right,
            Direction::Right => self.direction == Direction::Left,
            Direction::Still => true,
        };
        if !blocked {
            self.direction = requested;
        }
    }

    /// Whether the head lies outside the playing field: the game-over
    /// condition the application turns into a fatal stop.
    pub fn out_bounds(&self) -> (b: bool)
        ensures
            b == !in_grid(self.position),
    {
        self.position.0 < 0 || self.position.0 > CELL_COUNT - 1 || self.position.1 < 0
            || self.position.1 > CELL_COUNT - 1
    }

    /// Whether the head has run into the tail: the other game-over
    /// condition the application turns into a fatal stop.
    pub fn cannibalism(&self) -> (b: bool)
        ensures
            b == self.tail@.contains(self.position),
    {
        let n = self.tail.len();
        let mut i: usize = 0;
        while i < n
            invariant
                i <= n,
                n == self.tail@.len(),
                forall|k: int| 0 <= k < i ==> self.tail@[k] != self.position,
            decreases n - i,
        {
            if self.tail[i] == self.position {
                return true;
            }
            i += 1;
        }
        false
    }
}

/// One piece of food and the cell it occupies.
#[derive(Debug)]
pub struct Food {
    position: Position,
}

impl Food {
    /// Food occupying the given cell.
    pub fn new(position: Position) -> (f: Self)
        ensures
            f.pos() == position,
    {
        Food { position }
    }

    /// The cell this food occupies.
    pub fn position(&self) -> (p: &Position)
        ensures
            *p == self.pos(),
    {
        &self.position
    }

    /// The cell this food occupies, as a mathematical value.
    pub closed spec fn pos(&self) -> Position {
        self.position
    }
}

impl Default for Food {
    /// Food at a cell drawn uniformly at random from the playing field.
    fn default() -> (f: Self)
        ensures
            in_grid(f.pos()),
    {
        let position = Position::rand(0, CELL_COUNT, 0, CELL_COUNT);
        Food { position }
    }
}

/// The component universe of the snake game: every concrete type the game
/// ever stores, each variant carrying its own token.
#[derive(Debug)]
pub enum GameComponent {
    Player(Player),
    Food(Food),
    Position(Position),
}

impl Component for GameComponent {
    open spec fn token(&self) -> Token {
        match self {
            GameComponent::Player(_) => PLAYER_TOKEN,
            GameComponent::Food(_) => FOOD_TOKEN,
            GameComponent::Position(_) => POSITION_TOKEN,
        }
    }

    fn type_token(&self) -> (t: Token) {
        match self {
            GameComponent::Player(_) => PLAYER_TOKEN,
            GameComponent::Food(_) => FOOD_TOKEN,
            GameComponent::Position(_) => POSITION_TOKEN,
        }
    }
}

/// The first instance stored under the player token, when it is a snake.
pub open spec fn player_first(m: Map<Token, Seq<GameComponent>>) -> Option<Player> {
    if m.contains_key(PLAYER_TOKEN) && m[PLAYER_TOKEN].len() > 0 {
        match m[PLAYER_TOKEN][0] {
            GameComponent::Player(p) => Option::Some(p),
            _ => Option::None,
        }
    } else {
        Option::None
    }
}

/// Whether a stored instance is food occupying `target`.
pub open spec fn is_food_at(c: GameComponent, target: Position) -> bool {
    c matches GameComponent::Food(f) && f.pos() == target
}

/// The least index in `foods` of a food instance occupying `target`, if any.
pub open spec fn first_food_at(foods: Seq<GameComponent>, target: Position) -> Option<int>
    decreases foods.len(),
{
    if foods.len() == 0 {
        Option::None
    } else if is_food_at(foods[0], target) {
        Option::Some(0)
    } else {
        match first_food_at(foods.drop_first(), target) {
            Option::Some(i) => Option::Some(i + 1),
            Option::None => Option::None,
        }
    }
}

proof fn lemma_first_food_at_found(foods: Seq<GameComponent>, target: Position, i: int)
    requires
        0 <= i < foods.len(),
        forall|k: int| 0 <= k < i ==> !is_food_at(#[trigger] foods[k], target),
        is_food_at(foods[i], target),
    ensures
        first_food_at(foods, target) == Option::Some(i),
    decreases i,
{
    if i > 0 {
        assert(!is_food_at(foods[0], target));
        assert(forall|k: int|
            0 <= k < i - 1 ==> !is_food_at(#[trigger] foods.drop_first()[k], target));
        lemma_first_food_at_found(foods.drop_first(), target, i - 1);
    }
}

proof fn lemma_first_food_at_none(foods: Seq<GameComponent>, target: Position)
    requires
        forall|k: int| 0 <= k < foods.len() ==> !is_food_at(#[trigger] foods[k], target),
    ensures
        first_food_at(foods, target) == Option::<int>::None,
    decreases foods.len(),
{
    if foods.len() > 0 {
        lemma_first_food_at_none(foods.drop_first(), target);
    }
}

/// The index of the food the snake's head currently covers, when the snake
/// and such a food are both stored.
pub open spec fn eat_match(m: Map<Token, Seq<GameComponent>>) -> Option<int> {
    match player_first(m) {
        Option::Some(p) => if m.contains_key(FOOD_TOKEN) {
            first_food_at(m[FOOD_TOKEN], p.position)
        } else {
            Option::None
        },
        Option::None => Option::None,
    }
}

/// The least index in `foods` of a food instance occupying `target`.
fn find_food_at(foods: &Vec<GameComponent>, target: Position) -> (r: Option<usize>)
    ensures
        r matches Some(i) ==> i < foods@.len() && first_food_at(foods@, target) == Option::Some(
            i as int,
        ),
        r is None ==> first_food_at(foods@, target) == Option::<int>::None,
{
    let n = foods.len();
    let mut k: usize = 0;
    while k < n
        invariant
            k <= n,
            n == foods@.len(),
            forall|j: int| 0 <= j < k ==> !is_food_at(#[trigger] foods@[j], target),
        decreases n - k,
    {
        let hit = match &foods[k] {
            GameComponent::Food(f) => f.position == target,
            _ => false,
        };
        if hit {
            proof {
                lemma_first_food_at_found(foods@, target, k as int);
            }
            return Some(k);
        }
        k += 1;
    }
    proof {
        lemma_first_food_at_none(foods@, target);
    }
    None
}

/// The snake as first registered: at the starting cell, standing still,
/// without a tail.
pub open spec fn start_player(p: Player) -> bool {
    &&& p.position == (Position(SNAKE_X, SNAKE_Y))
    &&& p.direction == Direction::Still
    &&& p.tail@ == Seq::<Position>::empty()
}

impl Player {
    /// Startup system: inserts the starting snake into storage.
    pub fn init(storage: &mut Storage<GameComponent>)
        requires
            old(storage).wf(),
        ensures
            final(storage).wf(),
            exists|p: Player|
                #[trigger] start_player(p) && final(storage)@ == old(storage)@.insert(
                    PLAYER_TOKEN,
                    old(storage).bucket(PLAYER_TOKEN).push(GameComponent::Player(p)),
                ),
    {
        let p = Player::default();
        let ghost gp = p;
        storage.add(GameComponent::Player(p));
        proof {
            assert(start_player(gp));
            assert(storage@ == old(storage)@.insert(
                PLAYER_TOKEN,
                old(storage).bucket(PLAYER_TOKEN).push(GameComponent::Player(gp)),
            ));
        }
    }

    /// Steady system: advances the snake one grid step, when a snake is
    /// stored and one more step stays within the machine coordinate range.
    pub fn moving_at_grid(storage: &mut Storage<GameComponent>)
        requires
            old(storage).wf(),
        ensures
            final(storage).wf(),
            ({
                let pre = old(storage)@;
                let post = final(storage)@;
                match player_first(pre) {
                    Option::Some(p) => if Self::can_advance(p) {
                        &&& post.contains_key(PLAYER_TOKEN)
                        &&& post[PLAYER_TOKEN].len() == pre[PLAYER_TOKEN].len()
                        &&& post[PLAYER_TOKEN][0] matches GameComponent::Player(q)
                            && Self::advanced_from(q, p)
                        &&& post == pre.insert(
                            PLAYER_TOKEN,
                            pre[PLAYER_TOKEN].update(0, post[PLAYER_TOKEN][0]),
                        )
                    } else {
                        post == pre
                    },
                    Option::None => post == pre,
                }
            }),
    {
        let ghost pre = storage@;
        let do_advance = match storage.get_first(PLAYER_TOKEN) {
            Some(c) => match c {
                GameComponent::Player(p) => p.position.0 > i32::MIN && p.position.0 < i32::MAX
                    && p.position.1 > i32::MIN && p.position.1 < i32::MAX,
                _ => false,
            },
            None => false,
        };
        if do_advance {
            match storage.get_first_mut(PLAYER_TOKEN) {
                Some(c) => match c {
                    GameComponent::Player(p) => {
                        p.advance();
                    },
                    _ => {
                        proof {
                            assert(false);
                        }
                    },
                },
                None => {
                    proof {
                        assert(false);
                    }
                },
            }
        } else {
            proof {
                match player_first(pre) {
                    Option::Some(p) => {
                        assert(!Player::can_advance(p));
                    },
                    Option::None => {},
                }
            }
        }
    }

    /// Steady system: when the snake's head covers a food instance, removes
    /// the first such instance and grows the tail by one segment; otherwise
    /// leaves the storage as it is.
    pub fn eat(storage: &mut Storage<GameComponent>)
        requires
            old(storage).wf(),
        ensures
            final(storage).wf(),
            ({
                let pre = old(storage)@;
                let post = final(storage)@;
                match eat_match(pre) {
                    Option::Some(i) => player_first(pre) matches Option::Some(p) && {
                        &&& post.contains_key(PLAYER_TOKEN)
                        &&& post.contains_key(FOOD_TOKEN)
                        &&& 0 <= i < pre[FOOD_TOKEN].len()
                        &&& post[FOOD_TOKEN] == pre[FOOD_TOKEN].remove(i)
                        &&& post[PLAYER_TOKEN].len() == pre[PLAYER_TOKEN].len()
                        &&& post[PLAYER_TOKEN][0] matches GameComponent::Player(q) && q.position
                            == p.position && q.direction == p.direction && q.tail@
                            == p.tail@.push(Player::growth_segment(p))
                        &&& post == pre.insert(FOOD_TOKEN, pre[FOOD_TOKEN].remove(i)).insert(
                            PLAYER_TOKEN,
                            pre[PLAYER_TOKEN].update(0, post[PLAYER_TOKEN][0]),
                        )
                    },
                    Option::None => post == pre,
                }
            }),
    {
        let ghost pre = storage@;
        let mut eaten: Option<usize> = None;
        match storage.get_several_mut(PLAYER_TOKEN, FOOD_TOKEN) {
            Some(pair) => {
                let (snake, food) = pair;
                if snake.len() > 0 {
                    eaten = match &snake[0] {
                        GameComponent::Player(p) => find_food_at(food, p.position),
                        _ => None,
                    };
                }
            },
            None => {},
        }
        proof {
            if pre.contains_key(PLAYER_TOKEN) && pre.contains_key(FOOD_TOKEN) {
                assert(pre.insert(PLAYER_TOKEN, pre[PLAYER_TOKEN]).insert(
                    FOOD_TOKEN,
                    pre[FOOD_TOKEN],
                ) =~= pre);
            }
            assert(storage@ == pre);
        }
        match eaten {
            Some(idx) => {
                let _removed = storage.remove(FOOD_TOKEN, idx);
                match storage.get_first_mut(PLAYER_TOKEN) {
                    Some(c) => match c {
                        GameComponent::Player(p) => {
                            p.grow();
                        },
                        _ => {
                            proof {
                                assert(false);
                            }
                        },
                    },
                    None => {
                        proof {
                            assert(false);
                        }
                    },
                }
            },
            None => {},
        }
    }
}

impl Food {
    /// Steady system: keeps the stored food population at its bound, adding
    /// one food instance at a random in-grid cell while it is below.
    pub fn spawn(storage: &mut Storage<GameComponent>)
        requires
            old(storage).wf(),
        ensures
            final(storage).wf(),
            old(storage).bucket(FOOD_TOKEN).len() >= MAX_FOOD ==> final(storage)@ == old(
                storage,
            )@,
            old(storage).bucket(FOOD_TOKEN).len() < MAX_FOOD ==> exists|f: Food|
                #[trigger] in_grid(f.pos()) && final(storage)@ == old(storage)@.insert(
                    FOOD_TOKEN,
                    old(storage).bucket(FOOD_TOKEN).push(GameComponent::Food(f)),
                ),
    {
        let count = match storage.get_all(FOOD_TOKEN) {
            Some(v) => v.len(),
            None => 0,
        };
        if count >= MAX_FOOD {
            return ;
        }
        let f = Food::default();
        let ghost gf = f;
        storage.add(GameComponent::Food(f));
        proof {
            assert(in_grid(gf.pos()));
            assert(storage@ == old(storage)@.insert(
                FOOD_TOKEN,
                old(storage).bucket(FOOD_TOKEN).push(GameComponent::Food(gf)),
            ));
        }
    }
}

/// The storage-driven systems of the snake game, as a single dispatchable
/// unit type: one variant per registered callable.
#[derive(Clone, Copy, Debug, PartialEq, Eq, Structural)]
pub enum GameSystem {
    InitPlayer,
    MoveAtGrid,
    Eat,
    SpawnFood,
}

impl System for GameSystem {
    type Comp = GameComponent;

    fn run(&mut self, storage: &mut Storage<GameComponent>) {
        match *self {
            GameSystem::InitPlayer => Player::init(storage),
            GameSystem::MoveAtGrid => Player::moving_at_grid(storage),
            GameSystem::Eat => Player::eat(storage),
            GameSystem::SpawnFood => Food::spawn(storage),
        }
    }
}

impl Player {
    /// Registers the snake's storage-driven units: the startup insertion,
    /// then the gated eating and stepping systems, in that order.
    pub fn register(builder: &mut Scheduler<GameSystem>)
        ensures
            Scheduler::registered(
                *old(builder),
                *final(builder),
                <Player as Plugin<GameSystem>>::startup_registers(),
                <Player as Plugin<GameSystem>>::steady_registers(),
            ),
    {
        builder.add_startup_system(GameSystem::InitPlayer);
        builder.add_interval_system(GameSystem::Eat, SNAKE_STEP_INTERVAL_MS);
        builder.add_interval_system(GameSystem::MoveAtGrid, SNAKE_STEP_INTERVAL_MS);
    }
}

impl Plugin<GameSystem> for Player {
    open spec fn startup_registers() -> Seq<(GameSystem, Option<u64>)> {
        seq![(GameSystem::InitPlayer, Option::None)]
    }

    open spec fn steady_registers() -> Seq<(GameSystem, Option<u64>)> {
        seq![
            (GameSystem::Eat, Option::Some(SNAKE_STEP_INTERVAL_MS)),
            (GameSystem::MoveAtGrid, Option::Some(SNAKE_STEP_INTERVAL_MS)),
        ]
    }

    fn new(builder: &mut Scheduler<GameSystem>) {
        Self::register(builder);
    }
}

impl Food {
    /// Registers the food's storage-driven unit: the gated spawner.
    pub fn register(builder: &mut Scheduler<GameSystem>)
        ensures
            Scheduler::registered(
                *old(builder),
                *final(builder),
                <Food as Plugin<GameSystem>>::startup_registers(),
                <Food as Plugin<GameSystem>>::steady_registers(),
            ),
    {
        builder.add_interval_system(GameSystem::SpawnFood, FOOD_SPAWN_INTERVAL_MS);
    }
}

impl Plugin<GameSystem> for Food {
    open spec fn startup_registers() -> Seq<(GameSystem, Option<u64>)> {
        Seq::empty()
    }

    open spec fn steady_registers() -> Seq<(GameSystem, Option<u64>)> {
        seq![(GameSystem::SpawnFood, Option::Some(FOOD_SPAWN_INTERVAL_MS))]
    }

    fn new(builder: &mut Scheduler<GameSystem>) {
        Self::register(builder);
    }
}

/// The whole game as one plugin: the snake's units, then the food's.
#[derive(Debug)]
pub struct Game;

impl Plugin<GameSystem> for Game {
    open spec fn startup_registers() -> Seq<(GameSystem, Option<u64>)> {
        <Player as Plugin<GameSystem>>::startup_registers() + <Food as Plugin<
            GameSystem,
        >>::startup_registers()
    }

    open spec fn steady_registers() -> Seq<(GameSystem, Option<u64>)> {
        <Player as Plugin<GameSystem>>::steady_registers() + <Food as Plugin<
            GameSystem,
        >>::steady_registers()
    }

    fn new(builder: &mut Scheduler<GameSystem>) {
        builder.add_plugin::<Player>();
        let ghost mid = *builder;
        builder.add_plugin::<Food>();
        proof {
            crate::scheduler::lemma_registered_compose(
                *old(builder),
                mid,
                *builder,
                <Player as Plugin<GameSystem>>::startup_registers(),
                <Player as Plugin<GameSystem>>::steady_registers(),
                <Food as Plugin<GameSystem>>::startup_registers(),
                <Food as Plugin<GameSystem>>::steady_registers(),
            );
        }
    }
}

} // verus!
