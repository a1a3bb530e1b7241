use async_operators::connection::{
    Capability, ConnectedToMany, ConnectedToOne, Disconnected, InputCapability, InputConnection,
    OutputIndex,
};

fn elements(summary: Vec<timely::progress::Antichain<u64>>) -> Vec<Vec<u64>> {
    summary.iter().map(|frontier| frontier.elements().to_vec()).collect()
}

#[test]
fn disconnected_describes_no_connection() {
    assert_eq!(elements(Disconnected.describe(0)), Vec::<Vec<u64>>::new());
    assert_eq!(elements(Disconnected.describe(3)), vec![vec![], vec![], vec![]]);
}

#[test]
fn disconnected_accepts_to_the_bare_time() {
    assert_eq!(Disconnected.accept(InputCapability::new(42)), 42);
}

#[test]
fn connected_to_one_describes_its_output() {
    assert_eq!(elements(ConnectedToOne(1).describe(3)), vec![vec![], vec![0], vec![]]);
    assert_eq!(elements(ConnectedToOne(0).describe(1)), vec![vec![0]]);
}

#[test]
fn connected_to_one_keeps_time_and_output() {
    let cap = ConnectedToOne(2).accept(InputCapability::new(5));
    assert_eq!(cap, Capability::new(5, 2));
    assert_eq!(cap.time(), 5);
    assert_eq!(cap.output(), 2);
}

#[test]
fn connected_to_many_describes_each_output() {
    assert_eq!(
        elements(ConnectedToMany([3, 1]).describe(4)),
        vec![vec![], vec![0], vec![], vec![0]]
    );
    // An output that is listed twice is connected once.
    assert_eq!(elements(ConnectedToMany([1, 1]).describe(2)), vec![vec![], vec![0]]);
    // No outputs listed: no connection.
    assert_eq!(elements(ConnectedToMany([]).describe(2)), vec![vec![], vec![]]);
}

#[test]
fn connected_to_many_replicates_the_capability() {
    let caps = ConnectedToMany([3, 1, 1]).accept(InputCapability::new(8));
    assert_eq!(caps, [Capability::new(8, 3), Capability::new(8, 1), Capability::new(8, 1)]);
    let none: [Capability; 0] = ConnectedToMany([]).accept(InputCapability::new(8));
    assert!(none.is_empty());
}

#[test]
fn capability_moves_forward_only() {
    let mut cap = Capability::new(1, 3);
    let later = cap.delayed(4);
    assert_eq!(later, Capability::new(4, 3));
    // The capability itself stays where it was.
    assert_eq!(cap, Capability::new(1, 3));
    cap.downgrade(2);
    assert_eq!(cap, Capability::new(2, 3));
    cap.downgrade(2);
    assert_eq!(cap.time(), 2);
    assert_eq!(cap.output(), 3);
}

#[test]
fn input_capability_holds_its_time() {
    assert_eq!(InputCapability::new(11).time(), 11);
}

#[test]
fn an_index_stands_for_its_output() {
    assert_eq!(OutputIndex::index(&4usize), 4);
}
