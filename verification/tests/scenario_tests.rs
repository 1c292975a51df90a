use factorish::chest::Chest;
use factorish::drop_items::DropItem;
use factorish::items::ItemType;
use factorish::scenarios::{default_scenario, electric_bench, inserter_bench, pipe_bench, select_scenario, transport_bench};
use factorish::structure::{Position, Rotation};
use factorish::buildings::Structure;

fn at(ss: &[Structure], i: usize) -> (ItemType, Position) {
    (ss[i].kind(), ss[i].position())
}

#[test]
fn default_scenario_is_the_starting_layout() {
    let (ss, items) = default_scenario();
    assert_eq!(ss.len(), 9);
    assert_eq!(at(&ss, 0), (ItemType::TransportBelt, Position::new(10, 3)));
    assert_eq!(at(&ss, 4), (ItemType::Furnace, Position::new(8, 3)));
    assert_eq!(at(&ss, 7), (ItemType::Boiler, Position::new(13, 5)));
    assert!(items.is_empty());
}

#[test]
fn pipe_bench_rings_the_square_with_pipes() {
    let (ss, items) = pipe_bench();
    assert_eq!(ss.len(), 9 + 90 * 4);
    assert_eq!(at(&ss, 9), (ItemType::Pipe, Position::new(11, 10)));
    assert_eq!(at(&ss, 98), (ItemType::Pipe, Position::new(100, 10)));
    assert_eq!(at(&ss, 99), (ItemType::Pipe, Position::new(10, 100)));
    assert_eq!(at(&ss, 189), (ItemType::Pipe, Position::new(10, 10)));
    assert_eq!(at(&ss, 368), (ItemType::Pipe, Position::new(100, 100)));
    assert!(ss[9..].iter().all(|s| s.kind() == ItemType::Pipe));
    assert!(items.is_empty());
}

#[test]
fn inserter_bench_alternates_chests_and_inserters() {
    let (ss, items) = inserter_bench();
    assert_eq!(ss.len(), 9 + 91 + 91 + 89 + 89);
    match &ss[9] {
        Structure::Chest(c) => {
            assert_eq!(c.position, Position::new(10, 10));
            assert_eq!(c.inventory.count_item(&ItemType::IronOre), 1);
        },
        _ => panic!("a chest comes first"),
    }
    match &ss[10] {
        Structure::Inserter(p, ins) => {
            assert_eq!(*p, Position::new(11, 10));
            assert_eq!(ins.rotation, Rotation::Right);
        },
        _ => panic!("an inserter comes second"),
    }
    match &ss[100] {
        Structure::Chest(c) => assert_eq!(c.inventory.count_item(&ItemType::CoalOre), 1),
        _ => panic!("the bottom row starts with a chest"),
    }
    match &ss[191] {
        Structure::Inserter(p, ins) => {
            assert_eq!(*p, Position::new(10, 11));
            assert_eq!(ins.rotation, Rotation::Top);
        },
        _ => panic!("the left column starts with an inserter"),
    }
    match &ss[192] {
        Structure::Chest(c) => assert_eq!(c.inventory.len(), 0),
        _ => panic!("then a chest"),
    }
    assert!(items.is_empty());
}

#[test]
fn transport_bench_puts_an_item_on_each_belt() {
    let (ss, items) = transport_bench();
    assert_eq!(ss.len(), 9 + 90 * 4);
    assert_eq!(items.len(), 90 * 4);
    match &ss[9] {
        Structure::TransportBelt(b) => {
            assert_eq!(b.position, Position::new(11, 10));
            assert_eq!(b.rotation, Rotation::Left);
        },
        _ => panic!("a belt"),
    }
    assert_eq!(items[0], DropItem { type_: ItemType::CoalOre, x: 11 * 32 + 16, y: 10 * 32 + 16 });
    assert_eq!(items[90], DropItem { type_: ItemType::IronOre, x: 10 * 32 + 16, y: 100 * 32 + 16 });
    assert_eq!(items[180].type_, ItemType::CopperOre);
    assert_eq!(items[359], DropItem { type_: ItemType::StoneOre, x: 100 * 32 + 16, y: 100 * 32 + 16 });
}

#[test]
fn electric_bench_alternates_assemblers_and_poles() {
    let (ss, items) = electric_bench();
    assert_eq!(ss.len(), 9 + 91 + 91 + 89 + 89);
    assert_eq!(at(&ss, 9), (ItemType::Assembler, Position::new(10, 10)));
    assert_eq!(at(&ss, 10), (ItemType::ElectPole, Position::new(11, 10)));
    assert_eq!(at(&ss, 191), (ItemType::ElectPole, Position::new(10, 11)));
    assert!(items.is_empty());
}

#[test]
fn scenarios_are_chosen_by_name() {
    assert_eq!(select_scenario("default").unwrap().0.len(), 9);
    assert_eq!(select_scenario("pipe_bench").unwrap().0.len(), 369);
    assert_eq!(select_scenario("transport_bench").unwrap().1.len(), 360);
    assert_eq!(select_scenario("electric_bench").unwrap().0.len(), 369);
    assert!(select_scenario("inserter_bench").is_ok());
    assert!(select_scenario("nothing").is_err());
}

#[test]
fn chests_describe_their_items() {
    let mut c = Chest::new(&Position::new(0, 0));
    assert_eq!(c.desc(), "Items: \n");
    c.inventory.add_items(&ItemType::Gear, 2);
    c.inventory.add_items(&ItemType::IronOre, 1);
    assert_eq!(c.desc(), "Items: \nIronOre: 1<br>Gear: 2<br>");
}
