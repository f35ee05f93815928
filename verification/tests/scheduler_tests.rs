use snake::game::{GameComponent, Position, POSITION_TOKEN};
use snake::scheduler::{FunctionSystem, IntoSystem, Plugin, Scheduler, System};
use snake::storage::Storage;

/// Systems used by the scheduler tests: they leave integer markers in the
/// storage, under the bare position token.
enum TestSystem {
    /// Appends a marker so execution order can be read back.
    PushMarker(i32),
    /// Inserts the counter with value 0.
    InsertCounter,
    /// Adds 1 to the first stored counter.
    Increment,
}

impl System for TestSystem {
    type Comp = GameComponent;

    fn run(&mut self, storage: &mut Storage<GameComponent>) {
        match self {
            TestSystem::PushMarker(n) => {
                storage.add(GameComponent::Position(Position(*n, 0)));
            }
            TestSystem::InsertCounter => {
                storage.add(GameComponent::Position(Position(0, 0)));
            }
            TestSystem::Increment => {
                if let Some(GameComponent::Position(p)) = storage.get_first_mut(POSITION_TOKEN) {
                    p.0 += 1;
                }
            }
        }
    }
}

fn markers(storage: &Storage<GameComponent>) -> Vec<i32> {
    match storage.get_all(POSITION_TOKEN) {
        Some(all) => all
            .iter()
            .map(|c| match c {
                GameComponent::Position(p) => p.0,
                _ => panic!("expected a position component"),
            })
            .collect(),
        None => Vec::new(),
    }
}

#[test]
fn startup_units_run_exactly_once_over_two_ticks() {
    let mut scheduler: Scheduler<TestSystem> = Scheduler::new();
    scheduler.add_startup_system(TestSystem::PushMarker(100));
    scheduler.add_startup_system(TestSystem::PushMarker(101));
    scheduler.add_system(TestSystem::PushMarker(1));
    let mut storage: Storage<GameComponent> = Storage::new();

    scheduler.run(&mut storage);
    assert_eq!(markers(&storage), vec![100, 101, 1]);

    scheduler.run(&mut storage);
    // The startup markers appear once in total; the steady marker per tick.
    assert_eq!(markers(&storage), vec![100, 101, 1, 1]);
}

#[test]
fn interval_gating_blocks_until_due_time() {
    let mut units: Vec<FunctionSystem<TestSystem>> = Vec::new();
    units.push(IntoSystem::into(TestSystem::InsertCounter, None));
    let mut storage: Storage<GameComponent> = Storage::new();
    Scheduler::run_systems(&mut units, &mut storage, 0);
    assert_eq!(markers(&storage), vec![0]);

    let mut gated: Vec<FunctionSystem<TestSystem>> = Vec::new();
    gated.push(IntoSystem::into(TestSystem::Increment, Some(10)));

    // First tick at time 100: a fresh unit is always eligible, then re-arms
    // to 110.
    Scheduler::run_systems(&mut gated, &mut storage, 100);
    assert_eq!(markers(&storage), vec![1]);
    // Before 110 the unit must not execute.
    Scheduler::run_systems(&mut gated, &mut storage, 105);
    assert_eq!(markers(&storage), vec![1]);
    Scheduler::run_systems(&mut gated, &mut storage, 109);
    assert_eq!(markers(&storage), vec![1]);
    // At the due time it executes again.
    Scheduler::run_systems(&mut gated, &mut storage, 110);
    assert_eq!(markers(&storage), vec![2]);
    // And is gated again right after.
    Scheduler::run_systems(&mut gated, &mut storage, 111);
    assert_eq!(markers(&storage), vec![2]);
}

#[test]
fn interval_rearm_saturates_at_the_largest_time() {
    let mut storage: Storage<GameComponent> = Storage::new();
    let mut units: Vec<FunctionSystem<TestSystem>> = Vec::new();
    units.push(IntoSystem::into(TestSystem::InsertCounter, None));
    Scheduler::run_systems(&mut units, &mut storage, 0);

    let mut gated: Vec<FunctionSystem<TestSystem>> = Vec::new();
    gated.push(IntoSystem::into(TestSystem::Increment, Some(u64::MAX)));
    // The first tick executes and re-arms to the saturated largest time.
    Scheduler::run_systems(&mut gated, &mut storage, 5);
    assert_eq!(markers(&storage), vec![1]);
    // Every later tick before the largest representable time is blocked.
    Scheduler::run_systems(&mut gated, &mut storage, u64::MAX - 1);
    assert_eq!(markers(&storage), vec![1]);
    // At the saturated due time the unit executes again.
    Scheduler::run_systems(&mut gated, &mut storage, u64::MAX);
    assert_eq!(markers(&storage), vec![2]);
}

#[test]
fn ungated_units_run_every_tick() {
    let mut units: Vec<FunctionSystem<TestSystem>> = Vec::new();
    units.push(IntoSystem::into(TestSystem::InsertCounter, None));
    units.push(IntoSystem::into(TestSystem::Increment, None));
    let mut storage: Storage<GameComponent> = Storage::new();
    Scheduler::run_systems(&mut units, &mut storage, 7);
    Scheduler::run_systems(&mut units, &mut storage, 7);
    Scheduler::run_systems(&mut units, &mut storage, 7);
    // The counter was inserted once per tick; only the first one counts up.
    assert_eq!(markers(&storage), vec![3, 0, 0]);
}

struct FirstPlugin;

impl Plugin<TestSystem> for FirstPlugin {
    fn new(builder: &mut Scheduler<TestSystem>) {
        builder.add_system(TestSystem::PushMarker(1));
        builder.add_system(TestSystem::PushMarker(2));
    }
}

struct SecondPlugin;

impl Plugin<TestSystem> for SecondPlugin {
    fn new(builder: &mut Scheduler<TestSystem>) {
        builder.add_system(TestSystem::PushMarker(3));
    }
}

struct BundlePlugin;

impl Plugin<TestSystem> for BundlePlugin {
    fn new(builder: &mut Scheduler<TestSystem>) {
        builder.add_plugin::<FirstPlugin>();
        builder.add_plugin::<SecondPlugin>();
    }
}

#[test]
fn plugin_flattening_keeps_registration_order() {
    let mut scheduler: Scheduler<TestSystem> = Scheduler::new();
    scheduler.add_system(TestSystem::PushMarker(0));
    scheduler.add_plugin::<BundlePlugin>();
    let mut storage: Storage<GameComponent> = Storage::new();
    scheduler.run(&mut storage);
    // The existing unit first, then the first sub-plugin's units in their own
    // order, then the second sub-plugin's.
    assert_eq!(markers(&storage), vec![0, 1, 2, 3]);
}

struct CounterPlugin;

impl Plugin<TestSystem> for CounterPlugin {
    fn new(builder: &mut Scheduler<TestSystem>) {
        builder.add_startup_system(TestSystem::InsertCounter);
        builder.add_system(TestSystem::Increment);
    }
}

#[test]
fn counter_scenario_three_ticks_count_to_three() {
    let mut scheduler: Scheduler<TestSystem> = Scheduler::new();
    scheduler.add_plugin::<CounterPlugin>();
    let mut storage: Storage<GameComponent> = Storage::new();
    scheduler.run(&mut storage);
    scheduler.run(&mut storage);
    scheduler.run(&mut storage);
    // Inserted once at value 0, incremented on every one of the three ticks,
    // never re-initialised.
    assert_eq!(markers(&storage), vec![3]);
}
