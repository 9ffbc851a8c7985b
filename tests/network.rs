use darjeeling::activation::ActivationFunction;
use darjeeling::category::{assign_answers, categorize, Category};
use darjeeling::model::Model;
use darjeeling::topology::{ConfigError, Topology};
use darjeeling::training::{epoch_order, largest_node, EpochDecision, EpochTally, TrainingSchedule};

#[test]
fn topology_of_two_two_two() {
    let t = Topology::new(2, 2, 2, 1).unwrap();
    assert_eq!(t.layer_count(), 3);
    assert_eq!((t.layer_size(0), t.layer_size(1), t.layer_size(2)), (2, 2, 2));
    assert_eq!((t.link_count(0), t.link_count(1), t.link_count(2)), (0, 2, 2));
    assert_eq!(t.parameters(), 2 + 6 + 6);
    assert_eq!((t.sensor(), t.answer()), (0, 2));
}

#[test]
fn topology_layers_and_links() {
    let t = Topology::new(64, 128, 10, 3).unwrap();
    assert_eq!(t.layer_count(), 5);
    for i in 1..t.layer_count() {
        assert_eq!(t.link_count(i), t.layer_size(i - 1));
    }
    assert_eq!(t.parameters(), 64 + 128 * 65 + 128 * 129 * 2 + 10 * 129);
    let flat = Topology::new(3, 0, 1, 0).unwrap();
    assert_eq!(flat.layer_count(), 2);
    assert_eq!(flat.parameters(), 3 + 4);
}

#[test]
fn degenerate_topologies_fail() {
    assert_eq!(Topology::new(0, 2, 2, 1).unwrap_err(), ConfigError::NoSensors);
    assert_eq!(Topology::new(2, 2, 0, 1).unwrap_err(), ConfigError::NoAnswers);
    assert_eq!(Topology::new(2, 0, 2, 1).unwrap_err(), ConfigError::EmptyHiddenLayer);
    assert_eq!(Topology::new(2, 2, 2, usize::MAX).unwrap_err(), ConfigError::TooLarge);
    assert_eq!(Topology::new(usize::MAX, 2, 2, 1).unwrap_err(), ConfigError::TooLarge);
}

#[test]
fn input_length_is_checked() {
    let t = Topology::new(2, 2, 2, 1).unwrap();
    assert_eq!(t.check_input(2), Ok(()));
    assert_eq!(t.check_input(3), Err(ConfigError::InputLengthMismatch { expected: 2, found: 3 }));
}

#[test]
fn weights_fill_nodes_in_order() {
    let t = Topology::new(2, 2, 2, 1).unwrap();
    let weights: Vec<i32> = (0..14).collect();
    let m = Model::from_weights(&t, ActivationFunction::Sigmoid, &weights);
    assert_eq!(m.layers.len(), 3);
    assert_eq!(m.layers[0][0].b_weight, 0);
    assert!(m.layers[0][1].link_weights.is_empty());
    assert_eq!(m.layers[1][0].b_weight, 2);
    assert_eq!(m.layers[1][0].link_weights, vec![3, 4]);
    assert_eq!(m.layers[2][1].b_weight, 11);
    assert_eq!(m.layers[2][1].link_weights, vec![12, 13]);
    for i in 1..m.layers.len() {
        for n in &m.layers[i] {
            assert_eq!(n.link_weights.len(), m.layers[i - 1].len());
        }
    }
}

fn labels(names: &[&str]) -> Vec<Category> {
    names.iter().map(|s| Category::Text(s.to_string())).collect()
}

#[test]
fn too_few_categories_fail() {
    let r = categorize(3, labels(&["0", "1"]));
    assert_eq!(r, Err(ConfigError::CategoryCountMismatch { expected: 3, found: 2 }));
    assert!(categorize(1, labels(&["0", "1"])).is_err());
    assert_eq!(categorize(2, labels(&["1", "0"])).unwrap(), labels(&["1", "0"]));
}

#[test]
fn answers_follow_the_label() {
    let cats = labels(&["1", "0", "1"]);
    assert_eq!(assign_answers(&cats, &Category::Text("1".to_string())), vec![true, false, true]);
    assert_eq!(assign_answers(&cats, &Category::Text("2".to_string())), vec![false, false, false]);
    assert_eq!(assign_answers(&cats, &Category::Integer(1)), vec![false, false, false]);
    let mixed = vec![Category::Boolean(true), Category::Integer(7), Category::Float(0.5f32.to_bits())];
    assert_eq!(assign_answers(&mixed, &Category::Float(0.5f32.to_bits())), vec![false, false, true]);
    assert!(Category::Integer(7).matches(&Category::Integer(7)));
    assert!(!Category::Boolean(true).matches(&Category::Boolean(false)));
}

#[test]
fn tally_counts_labelled_samples() {
    let mut t = EpochTally::new();
    let one = Category::Text("1".to_string());
    let zero = Category::Text("0".to_string());
    t.record(&one, &Some(one.clone()));
    t.record(&one, &Some(zero.clone()));
    t.record(&zero, &None);
    t.record(&zero, &Some(zero.clone()));
    assert_eq!((t.correct, t.count), (2, 3));
    assert!(t.meets_target(6666));
    assert!(!t.meets_target(6667));
    assert!(EpochTally::new().meets_target(10000));
}

#[test]
fn schedule_stops_on_target_or_limit() {
    let mut s = TrainingSchedule::new(10000, 3);
    let miss = EpochTally { correct: 3, count: 4 };
    let hit = EpochTally { correct: 4, count: 4 };
    assert_eq!(s.end_epoch(&miss), EpochDecision::Continue);
    assert_eq!(s.end_epoch(&hit), EpochDecision::Converged);
    let mut s = TrainingSchedule::new(9900, 2);
    assert_eq!(s.end_epoch(&miss), EpochDecision::Continue);
    assert_eq!(s.end_epoch(&miss), EpochDecision::EpochLimitReached);
    assert_eq!(s.epochs, 2);
}

#[test]
fn epoch_order_is_a_permutation() {
    let mut order = epoch_order(50);
    assert_eq!(order.len(), 50);
    order.sort();
    assert_eq!(order, (0..50).collect::<Vec<usize>>());
    assert!(epoch_order(0).is_empty());
}

#[test]
fn first_largest_output_wins() {
    assert_eq!(largest_node(&vec![3, 9, 2, 9]), 1);
    assert_eq!(largest_node(&vec![5]), 0);
    assert_eq!(largest_node(&vec![7, 7, 7]), 0);
    assert_eq!(largest_node(&vec![0, 1, 2, 3]), 3);
}
