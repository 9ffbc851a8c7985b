use darjeeling::activation::ActivationFunction;
use darjeeling::model::{model_file_name, new_model_file_name, parse_model, serialize_model, Model, ModelError, Node};

fn node(links: &[&str], bias: &str) -> Node<String> {
    Node { link_weights: links.iter().map(|s| s.to_string()).collect(), b_weight: bias.to_string() }
}

fn small_model() -> Model<String> {
    Model {
        layers: vec![
            vec![node(&[], "0.1"), node(&[], "-0.2")],
            vec![node(&["0.12", "-0.34"], "0.05"), node(&["0.5", "0.25"], "-0.125")],
            vec![node(&["1", "2"], "3")],
        ],
        activation: ActivationFunction::Sigmoid,
    }
}

#[test]
fn serialized_layout() {
    let text = serialize_model(&small_model());
    assert_eq!(
        text,
        ";0.1\n;-0.2\nlb\n0.12,-0.34;0.05\n0.5,0.25;-0.125\nlb\n1,2;3\nlb\nsigmoid"
    );
}

#[test]
fn round_trip_keeps_weights_and_activation() {
    for activation in [ActivationFunction::Sigmoid, ActivationFunction::Linear, ActivationFunction::Tanh, ActivationFunction::Step] {
        let mut m = small_model();
        m.activation = activation;
        let back = parse_model(&serialize_model(&m)).unwrap();
        assert_eq!(back.activation, activation);
        assert_eq!(back.layers.len(), 3);
        for (a, b) in back.layers.iter().zip(m.layers.iter()) {
            assert_eq!(a.len(), b.len());
            for (x, y) in a.iter().zip(b.iter()) {
                assert_eq!(x.link_weights, y.link_weights);
                assert_eq!(x.b_weight, y.b_weight);
            }
        }
    }
}

#[test]
fn trailing_newline_is_accepted() {
    let m = parse_model(";0.5\nlb\n0.25;1\nlb\nlinear\n").unwrap();
    assert_eq!(m.activation, ActivationFunction::Linear);
    assert_eq!(m.layers.len(), 2);
    assert_eq!(m.layers[1][0].link_weights, vec!["0.25".to_string()]);
    assert_eq!(m.layers[1][0].b_weight, "1");
}

#[test]
fn missing_activation_line_fails() {
    let r = parse_model(";0.5\nlb\n0.25;1\nlb");
    assert!(matches!(r, Err(ModelError::ActivationFunctionNotRead)));
    let r = parse_model(";0.5\nlb\n0.25;1\nlb\nrelu");
    assert!(matches!(r, Err(ModelError::ActivationFunctionNotRead)));
    assert!(matches!(parse_model(""), Err(ModelError::ActivationFunctionNotRead)));
}

#[test]
fn node_line_without_semicolon_fails() {
    let r = parse_model(";0.5\nlb\n0.25,1\nlb\nsigmoid");
    match r {
        Err(ModelError::InvalidNodeValueRead(s)) => assert_eq!(s, "0.25,1"),
        other => panic!("unexpected {:?}", other),
    }
}

#[test]
fn node_error_comes_before_activation_error() {
    let r = parse_model("oops\nlb");
    assert!(matches!(r, Err(ModelError::InvalidNodeValueRead(_))));
}

#[test]
fn file_names() {
    assert_eq!(model_file_name("xor", 0), "model_xor_0.darj");
    assert_eq!(model_file_name("xor", 4294967295), "model_xor_4294967295.darj");
    assert_eq!(model_file_name("", 1203), "model__1203.darj");
    let n = new_model_file_name("digits");
    assert!(n.starts_with("model_digits_"));
    assert!(n.ends_with(".darj"));
    let middle = &n["model_digits_".len()..n.len() - ".darj".len()];
    assert!(middle.parse::<u32>().is_ok());
}

#[test]
fn activation_names() {
    assert_eq!(ActivationFunction::Sigmoid.name(), "sigmoid");
    assert_eq!(ActivationFunction::Linear.name(), "linear");
    assert_eq!(ActivationFunction::Tanh.name(), "tanh");
    assert_eq!(ActivationFunction::Step.name(), "step");
    assert_eq!(ActivationFunction::from_name(&"step".chars().collect()), Some(ActivationFunction::Step));
    assert_eq!(ActivationFunction::from_name(&"Sigmoid".chars().collect()), None);
}

#[test]
fn consistency_of_read_models() {
    assert!(parse_model(&serialize_model(&small_model())).unwrap().is_consistent());
    let wrong_links = parse_model(";1\n;2\nlb\n0.5;1\nlb\nsigmoid").unwrap();
    assert!(!wrong_links.is_consistent());
    let sensor_links = parse_model("1;1\nlb\n0.5;1\nlb\nsigmoid").unwrap();
    assert!(!sensor_links.is_consistent());
    let one_layer = parse_model(";1\nlb\nsigmoid").unwrap();
    assert!(!one_layer.is_consistent());
    let no_answers = parse_model(";1\nlb\nlb\nsigmoid").unwrap();
    assert!(!no_answers.is_consistent());
}
