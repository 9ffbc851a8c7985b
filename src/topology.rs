use vstd::prelude::*;

use crate::activation::ActivationFunction;
use crate::model::{Model, Node};

verus! {

/// Why a network, or a call on one, is not well configured.
#[derive(Clone, Copy, Debug, PartialEq, Eq, Structural)]
pub enum ConfigError {
    /// The sensor layer would have no nodes.
    NoSensors,
    /// The answer layer would have no nodes.
    NoAnswers,
    /// There are hidden layers, but each would have no nodes.
    EmptyHiddenLayer,
    /// The layers or the parameters cannot be counted in machine integers.
    TooLarge,
    /// The number of categories differs from the number of answer nodes.
    CategoryCountMismatch { expected: usize, found: usize },
    /// A sample's feature count differs from the number of sensor nodes.
    InputLengthMismatch { expected: usize, found: usize },
}

/// The node counts of a network's layers: the sensors, `hidden_layers` layers of `hidden`
/// nodes each, then the answers.
pub open spec fn spec_layer_sizes(sensors: nat, hidden: nat, answers: nat, hidden_layers: nat) -> Seq<nat> {
    Seq::new(
        hidden_layers + 2,
        |i: int|
            if i == 0 {
                sensors
            } else if i == hidden_layers + 1 {
                answers
            } else {
                hidden
            },
    )
}

/// The number of incoming links of each node of layer `i`: none for the sensors, else one per
/// node of the previous layer.
pub open spec fn spec_links(sizes: Seq<nat>, i: int) -> nat {
    if i <= 0 {
        0
    } else {
        sizes[i - 1]
    }
}

/// The parameters of the first `n` layers: each node has a bias weight and one weight per link.
pub open spec fn spec_parameters(sizes: Seq<nat>, n: int) -> nat
    decreases n,
{
    if n <= 0 {
        0
    } else {
        spec_parameters(sizes, n - 1) + sizes[n - 1] * (1 + spec_links(sizes, n - 1))
    }
}

/// The shape of a fully connected network.
#[derive(Clone, Debug)]
pub struct Topology {
    layer_sizes: Vec<usize>,
    parameters: usize,
}

impl View for Topology {
    type V = Seq<nat>;

    closed spec fn view(&self) -> Seq<nat> {
        self.layer_sizes@.map_values(|n: usize| n as nat)
    }
}

impl Topology {
    /// A topology holds at least a sensor and an answer layer and knows its parameter count.
    pub closed spec fn wf(&self) -> bool {
        &&& self.layer_sizes@.len() >= 2
        &&& self.parameters == spec_parameters(self@, self@.len() as int)
    }

    /// The number of weights of a network of this shape.
    pub closed spec fn spec_parameter_count(&self) -> nat {
        self.parameters as nat
    }

    /// The shape with `sensors` sensor nodes, `hidden_layers` hidden layers of `hidden` nodes
    /// each, and `answers` answer nodes. Fails when the sensor or answer layer, or a hidden
    /// layer, would be empty, or when the parameters cannot be counted in a `usize`.
    pub fn new(sensors: usize, hidden: usize, answers: usize, hidden_layers: usize) -> (r: Result<Topology, ConfigError>)
        ensures
            sensors == 0 ==> r == Err::<Topology, ConfigError>(ConfigError::NoSensors),
            sensors > 0 && answers == 0 ==> r == Err::<Topology, ConfigError>(ConfigError::NoAnswers),
            sensors > 0 && answers > 0 && hidden_layers > 0 && hidden == 0 ==> r == Err::<Topology, ConfigError>(
                ConfigError::EmptyHiddenLayer,
            ),
            r is Err ==> r == Err::<Topology, ConfigError>(ConfigError::TooLarge)
                || sensors == 0 || answers == 0 || (hidden_layers > 0 && hidden == 0),
            r == Err::<Topology, ConfigError>(ConfigError::TooLarge) <==> (sensors > 0 && answers > 0
                && (hidden_layers == 0 || hidden > 0) && (hidden_layers + 2 > usize::MAX
                || spec_parameters(
                spec_layer_sizes(sensors as nat, hidden as nat, answers as nat, hidden_layers as nat),
                hidden_layers + 2,
            ) > usize::MAX)),
            r matches Ok(t) ==> t.wf() && t@ == spec_layer_sizes(
                sensors as nat,
                hidden as nat,
                answers as nat,
                hidden_layers as nat,
            ),
    {
        if sensors == 0 {
            return Err(ConfigError::NoSensors);
        }
        if answers == 0 {
            return Err(ConfigError::NoAnswers);
        }
        if hidden_layers > 0 && hidden == 0 {
            return Err(ConfigError::EmptyHiddenLayer);
        }
        if hidden_layers > usize::MAX - 2 {
            return Err(ConfigError::TooLarge);
        }
        let ghost want = spec_layer_sizes(sensors as nat, hidden as nat, answers as nat, hidden_layers as nat);
        let count = hidden_layers + 2;
        let mut layer_sizes: Vec<usize> = Vec::new();
        let mut parameters: usize = 0;
        let mut previous: usize = 0;
        let mut i: usize = 0;
        while i < count
            invariant
                count == hidden_layers + 2,
                sensors > 0,
                answers > 0,
                hidden_layers == 0 || hidden > 0,
                want == spec_layer_sizes(sensors as nat, hidden as nat, answers as nat, hidden_layers as nat),
                i <= count,
                layer_sizes@.map_values(|n: usize| n as nat) == want.subrange(0, i as int),
                parameters == spec_parameters(want, i as int),
                previous == spec_links(want, i as int),
            decreases count - i,
        {
            let size = if i == 0 {
                sensors
            } else if i == count - 1 {
                answers
            } else {
                hidden
            };
            assert(size == want[i as int]);
            let links_plus_one = match previous.checked_add(1) {
                Some(v) => v,
                None => {
                    proof {
                        let w = want[i as int];
                        assert(w >= 1);
                        assert(w * (1 + previous) >= 1 + previous) by (nonlinear_arith)
                            requires
                                w >= 1,
                        ;
                        lemma_parameters_grow(want, i as int + 1, count as int);
                    }
                    return Err(ConfigError::TooLarge);
                },
            };
            let weights = match size.checked_mul(links_plus_one) {
                Some(v) => v,
                None => {
                    proof {
                        lemma_parameters_grow(want, i as int + 1, count as int);
                    }
                    return Err(ConfigError::TooLarge);
                },
            };
            parameters = match parameters.checked_add(weights) {
                Some(v) => v,
                None => {
                    proof {
                        lemma_parameters_grow(want, i as int + 1, count as int);
                    }
                    return Err(ConfigError::TooLarge);
                },
            };
            let ghost old_sizes = layer_sizes@;
            layer_sizes.push(size);
            assert(layer_sizes@.map_values(|n: usize| n as nat) =~= old_sizes.map_values(|n: usize| n as nat).push(
                size as nat,
            ));
            assert(want.subrange(0, i + 1) =~= want.subrange(0, i as int).push(want[i as int]));
            previous = size;
            i = i + 1;
        }
        assert(want.subrange(0, i as int) =~= want);
        let t = Topology { layer_sizes, parameters };
        proof {
            lemma_parameters_prefix(t@, want, count as int);
        }
        Ok(t)
    }

    /// The number of layers.
    pub fn layer_count(&self) -> (r: usize)
        ensures
            r == self@.len(),
    {
        self.layer_sizes.len()
    }

    /// The number of nodes of layer `i`.
    pub fn layer_size(&self, i: usize) -> (r: usize)
        requires
            i < self@.len(),
        ensures
            r == self@[i as int],
    {
        self.layer_sizes[i]
    }

    /// The number of incoming links of each node of layer `i`.
    pub fn link_count(&self, i: usize) -> (r: usize)
        requires
            i < self@.len(),
        ensures
            r == spec_links(self@, i as int),
    {
        if i == 0 {
            0
        } else {
            self.layer_sizes[i - 1]
        }
    }

    /// The index of the sensor layer.
    pub fn sensor(&self) -> (r: usize)
        ensures
            r == 0,
    {
        0
    }

    /// The index of the answer layer.
    pub fn answer(&self) -> (r: usize)
        requires
            self.wf(),
        ensures
            r == self@.len() - 1,
    {
        self.layer_sizes.len() - 1
    }

    /// The number of weights of a network of this shape: a bias weight and one weight per link
    /// for every node.
    pub fn parameters(&self) -> (r: usize)
        requires
            self.wf(),
        ensures
            r == spec_parameters(self@, self@.len() as int),
            r == self.spec_parameter_count(),
    {
        self.parameters
    }

    /// Checks that a sample carries one feature per sensor node.
    pub fn check_input(&self, features: usize) -> (r: Result<(), ConfigError>)
        requires
            self.wf(),
        ensures
            r is Ok <==> features == self@[0],
            r is Err ==> r == Err::<(), ConfigError>(
                ConfigError::InputLengthMismatch { expected: self@[0] as usize, found: features },
            ),
    {
        if features == self.layer_sizes[0] {
            Ok(())
        } else {
            Err(ConfigError::InputLengthMismatch { expected: self.layer_sizes[0], found: features })
        }
    }
}

proof fn lemma_parameters_prefix(a: Seq<nat>, b: Seq<nat>, n: int)
    requires
        0 <= n <= a.len(),
        n <= b.len(),
        forall|i: int| 0 <= i < n ==> a[i] == b[i],
    ensures
        spec_parameters(a, n) == spec_parameters(b, n),
    decreases n,
{
    if n > 0 {
        lemma_parameters_prefix(a, b, n - 1);
    }
}

proof fn lemma_parameters_grow(sizes: Seq<nat>, m: int, n: int)
    requires
        0 <= m <= n,
    ensures
        spec_parameters(sizes, m) <= spec_parameters(sizes, n),
    decreases n - m,
{
    if m < n {
        lemma_parameters_grow(sizes, m, n - 1);
    }
}

/// The weights of a node in the order a network takes them: the bias weight, then the link
/// weights.
pub open spec fn flat_node<W>(n: Node<W>) -> Seq<W> {
    seq![n.b_weight] + n.link_weights@
}

/// The weights of the nodes of a layer, node after node.
pub open spec fn flat_layer<W>(l: Seq<Node<W>>) -> Seq<W>
    decreases l.len(),
{
    if l.len() == 0 {
        Seq::empty()
    } else {
        flat_layer(l.drop_last()) + flat_node(l.last())
    }
}

/// The weights of all layers, layer after layer.
pub open spec fn flat_layers<W>(ls: Seq<Vec<Node<W>>>) -> Seq<W>
    decreases ls.len(),
{
    if ls.len() == 0 {
        Seq::empty()
    } else {
        flat_layers(ls.drop_last()) + flat_layer(ls.last()@)
    }
}

/// `layers` has one layer per entry of `sizes`, with that many nodes, and each node has one
/// link weight per node of the previous layer.
pub open spec fn has_shape<W>(layers: Seq<Vec<Node<W>>>, sizes: Seq<nat>) -> bool {
    &&& layers.len() == sizes.len()
    &&& forall|i: int| 0 <= i < layers.len() ==> #[trigger] layers[i]@.len() == sizes[i]
    &&& forall|i: int, j: int|
        0 <= i < layers.len() && 0 <= j < layers[i]@.len() ==> (#[trigger] layers[i]@[j]).link_weights@.len()
            == spec_links(sizes, i)
}

proof fn lemma_weight_index(p: nat, j: nat, size: nat, l: nat, k: nat)
    requires
        j < size,
        k < l + 1,
    ensures
        p + j * (1 + l) + k < p + size * (1 + l),
        p + (j + 1) * (1 + l) <= p + size * (1 + l),
        (j + 1) * (1 + l) == j * (1 + l) + 1 + l,
{
    assert((j + 1) * (1 + l) <= size * (1 + l)) by (nonlinear_arith)
        requires
            j < size,
    ;
    assert((j + 1) * (1 + l) == j * (1 + l) + 1 + l) by (nonlinear_arith);
}

impl<W: Copy> Model<W> {
    /// A network of the given shape whose weights are `weights`, taken in order: layer by layer
    /// from the sensors, node by node, each node's bias weight and then its link weights.
    pub fn from_weights(topology: &Topology, activation: ActivationFunction, weights: &Vec<W>) -> (r: Model<W>)
        requires
            topology.wf(),
            weights@.len() == topology.spec_parameter_count(),
        ensures
            has_shape(r.layers@, topology@),
            flat_layers(r.layers@) == weights@,
            r.activation == activation,
    {
        let ghost sizes = topology@;
        let total = weights.len();
        let count = topology.layer_count();
        let mut layers: Vec<Vec<Node<W>>> = Vec::new();
        let mut idx: usize = 0;
        let mut i: usize = 0;
        while i < count
            invariant
                topology.wf(),
                sizes == topology@,
                count == sizes.len(),
                total == weights@.len(),
                weights@.len() == spec_parameters(sizes, count as int),
                i <= count,
                idx == spec_parameters(sizes, i as int),
                has_shape(layers@, sizes.subrange(0, i as int)),
                flat_layers(layers@) == weights@.subrange(0, idx as int),
            decreases count - i,
        {
            let size = topology.layer_size(i);
            let links = topology.link_count(i);
            proof {
                lemma_parameters_grow(sizes, i as int + 1, count as int);
            }
            let ghost base = idx as nat;
            let mut layer: Vec<Node<W>> = Vec::new();
            let mut j: usize = 0;
            while j < size
                invariant
                    i < count,
                    count == sizes.len(),
                    size == sizes[i as int],
                    links == spec_links(sizes, i as int),
                    weights@.len() >= spec_parameters(sizes, i as int + 1),
                    total == weights@.len(),
                    spec_parameters(sizes, i as int + 1) == base + size * (1 + links),
                    j <= size,
                    idx == base + j * (1 + links),
                    layer@.len() == j,
                    forall|x: int| 0 <= x < j ==> (#[trigger] layer@[x]).link_weights@.len() == links,
                    flat_layers(layers@) + flat_layer(layer@) == weights@.subrange(0, idx as int),
                decreases size - j,
            {
                proof {
                    lemma_weight_index(base, j as nat, size as nat, links as nat, 0);
                }
                let b_weight = weights[idx];
                idx = idx + 1;
                let mut link_weights: Vec<W> = Vec::new();
                let mut k: usize = 0;
                while k < links
                    invariant
                        j < size,
                        i < count,
                        count == sizes.len(),
                        total == weights@.len(),
                        size == sizes[i as int],
                        weights@.len() >= base + size * (1 + links),
                        k <= links,
                        idx == base + j * (1 + links) + 1 + k,
                        link_weights@.len() == k,
                        flat_layers(layers@) + flat_layer(layer@) + seq![b_weight] + link_weights@
                            == weights@.subrange(0, idx as int),
                    decreases links - k,
                {
                    proof {
                        lemma_weight_index(base, j as nat, size as nat, links as nat, 1 + k as nat);
                    }
                    let ghost before = link_weights@;
                    link_weights.push(weights[idx]);
                    idx = idx + 1;
                    k = k + 1;
                    assert(weights@.subrange(0, idx as int) =~= weights@.subrange(0, idx - 1).push(weights@[idx - 1]));
                    assert(flat_layers(layers@) + flat_layer(layer@) + seq![b_weight] + link_weights@
                        =~= (flat_layers(layers@) + flat_layer(layer@) + seq![b_weight] + before).push(weights@[idx - 1]));
                }
                let ghost layer_before = layer@;
                let node = Node { link_weights, b_weight };
                layer.push(node);
                proof {
                    lemma_weight_index(base, j as nat, size as nat, links as nat, 0);
                    assert(layer@.drop_last() =~= layer_before);
                    assert(flat_layer(layer@) == flat_layer(layer_before) + flat_node(node));
                    assert(flat_layers(layers@) + flat_layer(layer@) =~= flat_layers(layers@) + flat_layer(layer_before)
                        + seq![b_weight] + link_weights@);
                }
                j = j + 1;
            }
            let ghost layers_before = layers@;
            layers.push(layer);
            i = i + 1;
            proof {
                assert(layers@.drop_last() =~= layers_before);
                assert(flat_layers(layers@) == flat_layers(layers_before) + flat_layer(layer@));
                let sub = sizes.subrange(0, i as int);
                assert forall|a: int| 0 <= a < layers@.len() implies #[trigger] layers@[a]@.len() == sub[a] by {
                    if a < i - 1 {
                        assert(layers@[a] == layers_before[a]);
                    }
                }
                assert forall|a: int, b: int|
                    0 <= a < layers@.len() && 0 <= b < layers@[a]@.len() implies (#[trigger] layers@[a]@[b]).link_weights@.len()
                        == spec_links(sub, a) by {
                    if a < i - 1 {
                        assert(layers@[a] == layers_before[a]);
                        assert(spec_links(sub, a) == spec_links(sizes.subrange(0, i - 1), a));
                    }
                }
            }
        }
        assert(sizes.subrange(0, i as int) =~= sizes);
        assert(weights@.subrange(0, idx as int) =~= weights@);
        Model { layers, activation }
    }
}

/// The node count of each layer.
pub open spec fn sizes_of<W>(layers: Seq<Vec<Node<W>>>) -> Seq<nat> {
    layers.map_values(|l: Vec<Node<W>>| l@.len())
}

impl<W> Model<W> {
    /// Whether the model can run: it has a sensor and an answer layer, at least one answer
    /// node, no link weights on the sensors, and on every other node one link weight per node
    /// of the previous layer.
    pub fn is_consistent(&self) -> (r: bool)
        ensures
            r == (self.layers@.len() >= 2 && self.layers@.last()@.len() > 0 && has_shape(
                self.layers@,
                sizes_of(self.layers@),
            )),
    {
        let ghost sizes = sizes_of(self.layers@);
        let count = self.layers.len();
        if count < 2 || self.layers[count - 1].len() == 0 {
            return false;
        }
        let mut i: usize = 0;
        while i < count
            invariant
                count == self.layers@.len(),
                sizes == sizes_of(self.layers@),
                i <= count,
                forall|a: int, b: int|
                    0 <= a < i && 0 <= b < self.layers@[a]@.len() ==> (#[trigger] self.layers@[a]@[b]).link_weights@.len()
                        == spec_links(sizes, a),
            decreases count - i,
        {
            let expected = if i == 0 {
                0
            } else {
                self.layers[i - 1].len()
            };
            let layer = &self.layers[i];
            let mut j: usize = 0;
            while j < layer.len()
                invariant
                    i < count,
                    count == self.layers@.len(),
                    sizes == sizes_of(self.layers@),
                    layer == self.layers@[i as int],
                    expected == spec_links(sizes, i as int),
                    j <= layer@.len(),
                    forall|b: int| 0 <= b < j ==> (#[trigger] layer@[b]).link_weights@.len() == expected,
                    forall|a: int, b: int|
                        0 <= a < i && 0 <= b < self.layers@[a]@.len() ==> (#[trigger] self.layers@[a]@[b]).link_weights@.len()
                            == spec_links(sizes, a),
                decreases layer.len() - j,
            {
                if layer[j].link_weights.len() != expected {
                    assert(!has_shape(self.layers@, sizes));
                    return false;
                }
                j = j + 1;
            }
            i = i + 1;
        }
        true
    }
}

/// Every network built from a topology has one layer per hidden layer plus the sensor and
/// answer layers, and each of its nodes has exactly one link weight per node of the previous
/// layer.
pub proof fn lemma_topology_invariant<W>(
    sensors: nat,
    hidden: nat,
    answers: nat,
    hidden_layers: nat,
    layers: Seq<Vec<Node<W>>>,
)
    requires
        has_shape(layers, spec_layer_sizes(sensors, hidden, answers, hidden_layers)),
    ensures
        layers.len() == hidden_layers + 2,
        forall|i: int, j: int|
            1 <= i < layers.len() && 0 <= j < layers[i]@.len() ==> (#[trigger] layers[i]@[j]).link_weights@.len()
                == layers[i - 1]@.len(),
        forall|j: int| 0 <= j < layers[0]@.len() ==> (#[trigger] layers[0]@[j]).link_weights@.len() == 0,
{
    let sizes = spec_layer_sizes(sensors, hidden, answers, hidden_layers);
    assert forall|i: int, j: int|
        1 <= i < layers.len() && 0 <= j < layers[i]@.len() implies (#[trigger] layers[i]@[j]).link_weights@.len()
            == layers[i - 1]@.len() by {
        assert(layers[i - 1]@.len() == sizes[i - 1]);
    }
}

} // verus!
