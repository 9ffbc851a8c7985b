use vstd::prelude::*;

use crate::activation::{lemma_name_round_trip, spec_from_name, spec_name, ActivationFunction};
use crate::text::{
    chars_eq, chars_of, free_of, join, join_on, lemma_join_free_of, lemma_pieces_join, lemma_pieces_nonempty,
    pieces, push_all, split_on, string_of, views,
};

verus! {

/// The weights of one node: one per incoming link, in the order of the previous layer's nodes,
/// and the bias weight.
#[derive(Clone, Debug)]
pub struct Node<W> {
    pub link_weights: Vec<W>,
    pub b_weight: W,
}

/// The persistent state of a network: its layers of nodes, sensors first and answers last, and
/// its activation function.
#[derive(Clone, Debug)]
pub struct Model<W> {
    pub layers: Vec<Vec<Node<W>>>,
    pub activation: ActivationFunction,
}

/// Why a model text could not be read.
#[derive(Clone, Debug)]
pub enum ModelError {
    /// A node line or one of its fields could not be read; holds the offending text.
    InvalidNodeValueRead(String),
    /// The last line does not name an activation function.
    ActivationFunctionNotRead,
}

/// What a `ModelError` says.
pub enum ReadFailure {
    InvalidNodeValueRead(Seq<char>),
    ActivationFunctionNotRead,
}

impl View for ModelError {
    type V = ReadFailure;

    open spec fn view(&self) -> ReadFailure {
        match self {
            ModelError::InvalidNodeValueRead(s) => ReadFailure::InvalidNodeValueRead(s@),
            ModelError::ActivationFunctionNotRead => ReadFailure::ActivationFunctionNotRead,
        }
    }
}

/// A node whose weights are written as text.
pub struct NodeText {
    pub link_weights: Seq<Seq<char>>,
    pub b_weight: Seq<char>,
}

/// The text of each weight of `n`.
pub open spec fn node_text(n: Node<String>) -> NodeText {
    NodeText { link_weights: n.link_weights@.map_values(|w: String| w@), b_weight: n.b_weight@ }
}

/// The text of each node of `l`.
pub open spec fn layer_text(l: Vec<Node<String>>) -> Seq<NodeText> {
    l@.map_values(|n: Node<String>| node_text(n))
}

pub open spec fn layer_text_seq(l: Seq<Node<String>>) -> Seq<NodeText> {
    l.map_values(|n: Node<String>| node_text(n))
}

/// The layers of `m`, each weight as its text.
pub open spec fn model_text_layers(m: Model<String>) -> Seq<Seq<NodeText>> {
    m.layers@.map_values(|l: Vec<Node<String>>| layer_text(l))
}

/// The line that marks the end of a layer.
pub open spec fn layer_break() -> Seq<char> {
    seq!['l', 'b']
}

/// A node's line: its link weights separated by commas, a semicolon, its bias weight.
pub open spec fn node_line(n: NodeText) -> Seq<char> {
    join(n.link_weights, ',').push(';') + n.b_weight
}

/// The lines of a layer: one per node, then the layer break.
pub open spec fn layer_lines(l: Seq<NodeText>) -> Seq<Seq<char>> {
    l.map_values(|n: NodeText| node_line(n)).push(layer_break())
}

/// The lines of all layers, in order.
pub open spec fn body_lines(layers: Seq<Seq<NodeText>>) -> Seq<Seq<char>>
    decreases layers.len(),
{
    if layers.len() == 0 {
        Seq::empty()
    } else {
        body_lines(layers.drop_last()) + layer_lines(layers.last())
    }
}

/// The text of a model: the lines of its layers, then the name of its activation function, one
/// per line.
pub open spec fn model_text(layers: Seq<Seq<NodeText>>, a: ActivationFunction) -> Seq<char> {
    join(body_lines(layers).push(spec_name(a)), '\n')
}

/// The lines of a text; a final newline ends the last line rather than starting an empty one.
pub open spec fn text_lines(s: Seq<char>) -> Seq<Seq<char>> {
    let p = pieces(s, '\n');
    if p.last().len() == 0 {
        p.drop_last()
    } else {
        p
    }
}

/// The position of the first `c` in `s`, if any.
pub open spec fn first_index_of(s: Seq<char>, c: char) -> Option<int>
    decreases s.len(),
{
    if s.len() == 0 {
        None
    } else {
        match first_index_of(s.drop_last(), c) {
            Some(k) => Some(k),
            None => if s.last() == c {
                Some(s.len() - 1)
            } else {
                None
            },
        }
    }
}

/// The link weights written before a node line's semicolon: none when nothing is written there,
/// else the comma-separated fields.
pub open spec fn weight_fields(s: Seq<char>) -> Seq<Seq<char>> {
    if s.len() == 0 {
        Seq::empty()
    } else {
        pieces(s, ',')
    }
}

/// Reads a node line: weights before the first semicolon, bias after it.
pub open spec fn parse_node_line(line: Seq<char>) -> Result<NodeText, ReadFailure> {
    match first_index_of(line, ';') {
        Some(k) => Ok(
            NodeText {
                link_weights: weight_fields(line.subrange(0, k)),
                b_weight: line.subrange(k + 1, line.len() as int),
            },
        ),
        None => Err(ReadFailure::InvalidNodeValueRead(line)),
    }
}

/// Reads lines into the layers they close and the nodes read since the last layer break.
pub open spec fn group_lines(lines: Seq<Seq<char>>) -> Result<
    (Seq<Seq<NodeText>>, Seq<NodeText>),
    ReadFailure,
>
    decreases lines.len(),
{
    if lines.len() == 0 {
        Ok((Seq::empty(), Seq::empty()))
    } else {
        match group_lines(lines.drop_last()) {
            Err(e) => Err(e),
            Ok((done, cur)) => if lines.last() == layer_break() {
                Ok((done.push(cur), Seq::empty()))
            } else {
                match parse_node_line(lines.last()) {
                    Ok(n) => Ok((done, cur.push(n))),
                    Err(e) => Err(e),
                }
            },
        }
    }
}

/// Reads a model text: every line but the last is a node line or a layer break, and the last
/// line names the activation function. Node lines after the last layer break belong to no layer.
pub open spec fn parse_text(s: Seq<char>) -> Result<(Seq<Seq<NodeText>>, ActivationFunction), ReadFailure> {
    let lines = text_lines(s);
    if lines.len() == 0 {
        Err(ReadFailure::ActivationFunctionNotRead)
    } else {
        match group_lines(lines.drop_last()) {
            Err(e) => Err(e),
            Ok((layers, _)) => match spec_from_name(lines.last()) {
                Some(a) => Ok((layers, a)),
                None => Err(ReadFailure::ActivationFunctionNotRead),
            },
        }
    }
}

/// A weight can be written and read back: it is not empty and holds no separator.
pub open spec fn weight_token_ok(w: Seq<char>) -> bool {
    w.len() > 0 && free_of(w, ',') && free_of(w, ';') && free_of(w, '\n')
}

/// Every weight of a node can be written and read back.
pub open spec fn node_writable(n: NodeText) -> bool {
    &&& forall|k: int| 0 <= k < n.link_weights.len() ==> weight_token_ok(#[trigger] n.link_weights[k])
    &&& free_of(n.b_weight, '\n')
}

/// Every weight of every node can be written and read back.
pub open spec fn layers_writable(layers: Seq<Seq<NodeText>>) -> bool {
    forall|i: int, j: int| 0 <= i < layers.len() && 0 <= j < layers[i].len() ==> node_writable(#[trigger] layers[i][j])
}

proof fn lemma_group_error_persists(lines: Seq<Seq<char>>, n: int)
    requires
        0 <= n <= lines.len(),
        group_lines(lines.subrange(0, n)) is Err,
    ensures
        group_lines(lines) == group_lines(lines.subrange(0, n)),
    decreases lines.len() - n,
{
    if n < lines.len() {
        assert(lines.subrange(0, n + 1).drop_last() =~= lines.subrange(0, n));
        lemma_group_error_persists(lines, n + 1);
    } else {
        assert(lines.subrange(0, n) =~= lines);
    }
}

proof fn lemma_first_index_prefix(s: Seq<char>, t: Seq<char>, c: char)
    requires
        free_of(s, c),
    ensures
        first_index_of(s.push(c) + t, c) == Some(s.len() as int),
    decreases t.len(),
{
    if t.len() == 0 {
        assert(s.push(c) + t =~= s.push(c));
        lemma_first_index_none(s, c);
        assert(s.push(c).drop_last() =~= s);
    } else {
        assert((s.push(c) + t).drop_last() =~= s.push(c) + t.drop_last());
        lemma_first_index_prefix(s, t.drop_last(), c);
    }
}

proof fn lemma_first_index_none(s: Seq<char>, c: char)
    requires
        free_of(s, c),
    ensures
        first_index_of(s, c) is None,
    decreases s.len(),
{
    if s.len() > 0 {
        lemma_first_index_none(s.drop_last(), c);
    }
}

proof fn lemma_parse_node_line(n: NodeText)
    requires
        node_writable(n),
    ensures
        parse_node_line(node_line(n)) == Ok::<NodeText, ReadFailure>(n),
        node_line(n) != layer_break(),
{
    let j = join(n.link_weights, ',');
    assert forall|k: int| 0 <= k < n.link_weights.len() implies free_of(#[trigger] n.link_weights[k], ';') by {
        assert(weight_token_ok(n.link_weights[k]));
    }
    lemma_join_free_of(n.link_weights, ',', ';');
    lemma_first_index_prefix(j, n.b_weight, ';');
    let line = node_line(n);
    assert(line.subrange(0, j.len() as int) =~= j);
    assert(line.subrange(j.len() + 1 as int, line.len() as int) =~= n.b_weight);
    if n.link_weights.len() == 0 {
        assert(weight_fields(j) =~= n.link_weights);
    } else {
        assert forall|k: int| 0 <= k < n.link_weights.len() implies free_of(#[trigger] n.link_weights[k], ',') by {
            assert(weight_token_ok(n.link_weights[k]));
        }
        lemma_pieces_join(n.link_weights, ',');
        assert(j.len() > 0) by {
            assert(weight_token_ok(n.link_weights[0]));
            lemma_join_len(n.link_weights, ',');
        }
    }
    assert(line[j.len() as int] == ';');
    if line == layer_break() {
        assert(layer_break()[0] != ';' && layer_break()[1] != ';');
        assert(false);
    }
}

proof fn lemma_join_len(parts: Seq<Seq<char>>, sep: char)
    requires
        parts.len() >= 1,
    ensures
        join(parts, sep).len() >= parts[0].len(),
    decreases parts.len(),
{
    if parts.len() > 1 {
        lemma_join_len(parts.drop_last(), sep);
    }
}

/// Grouping node lines of one layer adds them to the open layer.
proof fn lemma_group_nodes(prefix: Seq<Seq<char>>, done: Seq<Seq<NodeText>>, cur: Seq<NodeText>, nodes: Seq<NodeText>)
    requires
        group_lines(prefix) == Ok::<(Seq<Seq<NodeText>>, Seq<NodeText>), ReadFailure>((done, cur)),
        forall|j: int| 0 <= j < nodes.len() ==> node_writable(#[trigger] nodes[j]),
    ensures
        group_lines(prefix + nodes.map_values(|n: NodeText| node_line(n))) == Ok::<
            (Seq<Seq<NodeText>>, Seq<NodeText>),
            ReadFailure,
        >((done, cur + nodes)),
    decreases nodes.len(),
{
    let lines = nodes.map_values(|n: NodeText| node_line(n));
    if nodes.len() == 0 {
        assert(prefix + lines =~= prefix);
        assert(cur + nodes =~= cur);
    } else {
        let init = nodes.drop_last();
        lemma_group_nodes(prefix, done, cur, init);
        assert((prefix + lines).drop_last() =~= prefix + init.map_values(|n: NodeText| node_line(n)));
        assert((prefix + lines).last() == node_line(nodes.last()));
        assert(node_writable(nodes[nodes.len() - 1]));
        lemma_parse_node_line(nodes.last());
        assert((cur + init).push(nodes.last()) =~= cur + nodes);
    }
}

proof fn lemma_group_body(layers: Seq<Seq<NodeText>>)
    requires
        layers_writable(layers),
    ensures
        group_lines(body_lines(layers)) == Ok::<(Seq<Seq<NodeText>>, Seq<NodeText>), ReadFailure>(
            (layers, Seq::empty()),
        ),
    decreases layers.len(),
{
    if layers.len() > 0 {
        let init = layers.drop_last();
        assert(layers_writable(init)) by {
            assert forall|i: int, j: int| 0 <= i < init.len() && 0 <= j < init[i].len() implies node_writable(#[trigger] init[i][j]) by {
                assert(init[i] == layers[i]);
                assert(node_writable(layers[i][j]));
            }
        }
        lemma_group_body(init);
        let last = layers.last();
        let i = layers.len() - 1;
        assert forall|j: int| 0 <= j < last.len() implies node_writable(#[trigger] last[j]) by {
            assert(last[j] == layers[i][j]);
            assert(node_writable(layers[i][j]));
        }
        lemma_group_nodes(body_lines(init), init, Seq::empty(), last);
        let node_lines = last.map_values(|n: NodeText| node_line(n));
        let all = body_lines(layers);
        assert(all =~= (body_lines(init) + node_lines).push(layer_break()));
        assert(all.drop_last() =~= body_lines(init) + node_lines);
        assert(Seq::<NodeText>::empty() + last =~= last);
        assert(init.push(last) =~= layers);
    } else {
        assert(layers =~= Seq::<Seq<NodeText>>::empty());
    }
}

proof fn lemma_body_lines_free(layers: Seq<Seq<NodeText>>)
    requires
        layers_writable(layers),
    ensures
        forall|i: int| 0 <= i < body_lines(layers).len() ==> free_of(#[trigger] body_lines(layers)[i], '\n'),
    decreases layers.len(),
{
    if layers.len() > 0 {
        let init = layers.drop_last();
        assert(layers_writable(init)) by {
            assert forall|i: int, j: int| 0 <= i < init.len() && 0 <= j < init[i].len() implies node_writable(#[trigger] init[i][j]) by {
                assert(init[i] == layers[i]);
                assert(node_writable(layers[i][j]));
            }
        }
        lemma_body_lines_free(init);
        let last = layers.last();
        let li = layers.len() - 1;
        let b = body_lines(init);
        let ll = layer_lines(last);
        assert forall|i: int| 0 <= i < ll.len() implies free_of(#[trigger] ll[i], '\n') by {
            if i < last.len() {
                let n = last[i];
                assert(n == layers[li][i]);
                assert(node_writable(layers[li][i]));
                assert forall|k: int| 0 <= k < n.link_weights.len() implies free_of(#[trigger] n.link_weights[k], '\n') by {
                    assert(weight_token_ok(layers[li][i].link_weights[k]));
                }
                lemma_join_free_of(n.link_weights, ',', '\n');
                let jn = join(n.link_weights, ',');
                assert(free_of(layers[li][i].b_weight, '\n'));
                assert forall|x: int| 0 <= x < node_line(n).len() implies node_line(n)[x] != '\n' by {
                    if x < jn.len() {
                        assert(node_line(n)[x] == jn[x]);
                    } else if x > jn.len() {
                        assert(node_line(n)[x] == n.b_weight[x - jn.len() - 1]);
                    }
                }
            } else {
                assert(ll[i] == layer_break());
            }
        }
        assert forall|i: int| 0 <= i < body_lines(layers).len() implies free_of(#[trigger] body_lines(layers)[i], '\n') by {
            if i < b.len() {
                assert(body_lines(layers)[i] == b[i]);
            } else {
                assert(body_lines(layers)[i] == ll[i - b.len()]);
            }
        }
    }
}

/// Reading back the text of a model gives the same weights in every node of every layer and
/// the same activation function, provided each weight is written as non-empty text without a
/// comma, semicolon or newline and each bias without a newline.
pub proof fn lemma_model_round_trip(layers: Seq<Seq<NodeText>>, a: ActivationFunction)
    requires
        layers_writable(layers),
    ensures
        parse_text(model_text(layers, a)) == Ok::<(Seq<Seq<NodeText>>, ActivationFunction), ReadFailure>(
            (layers, a),
        ),
{
    let lines = body_lines(layers).push(spec_name(a));
    lemma_body_lines_free(layers);
    assert forall|i: int| 0 <= i < lines.len() implies free_of(#[trigger] lines[i], '\n') by {
        if i < body_lines(layers).len() {
            assert(lines[i] == body_lines(layers)[i]);
        } else {
            assert(lines[i] == spec_name(a));
        }
    }
    lemma_pieces_join(lines, '\n');
    assert(spec_name(a).len() > 0);
    assert(text_lines(model_text(layers, a)) == lines);
    assert(lines.drop_last() =~= body_lines(layers));
    lemma_group_body(layers);
    lemma_name_round_trip(a);
}

/// The characters of `v` from position `from` up to, not including, `to`.
fn sub_chars(v: &Vec<char>, from: usize, to: usize) -> (r: Vec<char>)
    requires
        from <= to <= v@.len(),
    ensures
        r@ == v@.subrange(from as int, to as int),
{
    let mut r: Vec<char> = Vec::new();
    let mut i: usize = from;
    while i < to
        invariant
            from <= i <= to <= v@.len(),
            r@ == v@.subrange(from as int, i as int),
        decreases to - i,
    {
        r.push(v[i]);
        i = i + 1;
        assert(r@ =~= v@.subrange(from as int, i as int));
    }
    r
}

/// The strings holding the characters of each vector of `parts`.
fn strings_of(parts: &Vec<Vec<char>>) -> (r: Vec<String>)
    ensures
        r@.map_values(|w: String| w@) == views(parts@),
{
    let mut r: Vec<String> = Vec::new();
    let mut i: usize = 0;
    while i < parts.len()
        invariant
            i <= parts@.len(),
            r@.map_values(|w: String| w@) == views(parts@).subrange(0, i as int),
        decreases parts.len() - i,
    {
        let ghost old_r = r@;
        let w = string_of(&parts[i]);
        r.push(w);
        assert(r@.map_values(|w: String| w@) =~= old_r.map_values(|w: String| w@).push(w@));
        assert(views(parts@).subrange(0, i + 1) =~= views(parts@).subrange(0, i as int).push(parts@[i as int]@));
        i = i + 1;
    }
    assert(views(parts@).subrange(0, i as int) =~= views(parts@));
    r
}

/// The characters of each string of `ws`.
fn chars_of_all(ws: &Vec<String>) -> (r: Vec<Vec<char>>)
    ensures
        views(r@) == ws@.map_values(|w: String| w@),
{
    let mut r: Vec<Vec<char>> = Vec::new();
    let mut i: usize = 0;
    while i < ws.len()
        invariant
            i <= ws@.len(),
            views(r@) == ws@.map_values(|w: String| w@).subrange(0, i as int),
        decreases ws.len() - i,
    {
        let ghost old_r = r@;
        let c = chars_of(ws[i].as_str());
        r.push(c);
        assert(views(r@) =~= views(old_r).push(c@));
        assert(ws@.map_values(|w: String| w@).subrange(0, i + 1) =~= ws@.map_values(|w: String| w@).subrange(
            0,
            i as int,
        ).push(ws@[i as int]@));
        i = i + 1;
    }
    assert(ws@.map_values(|w: String| w@).subrange(0, i as int) =~= ws@.map_values(|w: String| w@));
    r
}

/// The characters of the layer break line.
fn layer_break_chars() -> (r: Vec<char>)
    ensures
        r@ == layer_break(),
{
    let r = vec!['l', 'b'];
    assert(r@ =~= layer_break());
    r
}

/// The line that a model text holds for `n`.
fn node_line_chars(n: &Node<String>) -> (r: Vec<char>)
    ensures
        r@ == node_line(node_text(*n)),
{
    let ws = chars_of_all(&n.link_weights);
    let mut r = join_on(&ws, ',');
    r.push(';');
    push_all(&mut r, &chars_of(n.b_weight.as_str()));
    r
}

/// Writes a model as text: for each layer one line per node (its link weights separated by
/// commas, a semicolon, its bias weight) and then a line `lb`; last, the name of the activation
/// function, with no newline after it.
pub fn serialize_model(model: &Model<String>) -> (r: String)
    ensures
        r@ == model_text(model_text_layers(*model), model.activation),
{
    let ghost layers = model_text_layers(*model);
    let mut lines: Vec<Vec<char>> = Vec::new();
    let mut i: usize = 0;
    while i < model.layers.len()
        invariant
            i <= model.layers@.len(),
            layers == model_text_layers(*model),
            views(lines@) == body_lines(layers.subrange(0, i as int)),
        decreases model.layers.len() - i,
    {
        let layer = &model.layers[i];
        let ghost before = views(lines@);
        let mut j: usize = 0;
        while j < layer.len()
            invariant
                i < model.layers@.len(),
                layer == model.layers@[i as int],
                j <= layer@.len(),
                layers == model_text_layers(*model),
                views(lines@) == before + layer_text(*layer).subrange(0, j as int).map_values(
                    |n: NodeText| node_line(n),
                ),
            decreases layer.len() - j,
        {
            let ghost old_lines = views(lines@);
            let line = node_line_chars(&layer[j]);
            lines.push(line);
            assert(views(lines@) =~= old_lines.push(line@));
            assert(layer_text(*layer)[j as int] == node_text(layer@[j as int]));
            assert(layer_text(*layer).subrange(0, j + 1).map_values(|n: NodeText| node_line(n))
                =~= layer_text(*layer).subrange(0, j as int).map_values(|n: NodeText| node_line(n)).push(line@));
            j = j + 1;
        }
        let ghost old_lines = views(lines@);
        let lb = layer_break_chars();
        lines.push(lb);
        assert(views(lines@) =~= old_lines.push(layer_break()));
        i = i + 1;
        proof {
            assert(layer_text(*layer).subrange(0, j as int) =~= layer_text(*layer));
            assert(layers.subrange(0, i as int).drop_last() =~= layers.subrange(0, i - 1));
            assert(layers[i - 1] == layer_text(*layer));
            assert(layers.subrange(0, i as int).last() == layer_text(*layer));
            assert(views(lines@) =~= body_lines(layers.subrange(0, i - 1)) + layer_lines(layer_text(*layer)));
        }
    }
    assert(layers.subrange(0, i as int) =~= layers);
    let ghost body = views(lines@);
    lines.push(model.activation.name_chars());
    assert(views(lines@) =~= body.push(spec_name(model.activation)));
    string_of(&join_on(&lines, '\n'))
}

/// Reads one node line: the link weights are the comma-separated fields before the first
/// semicolon (none when nothing stands there), the bias weight is all that follows it.
fn parse_node(line: &Vec<char>) -> (r: Result<Node<String>, ModelError>)
    ensures
        match r {
            Ok(n) => parse_node_line(line@) == Ok::<NodeText, ReadFailure>(node_text(n)),
            Err(e) => parse_node_line(line@) == Err::<NodeText, ReadFailure>(e@),
        },
{
    let mut k: usize = 0;
    while k < line.len() && line[k] != ';'
        invariant
            k <= line@.len(),
            free_of(line@.subrange(0, k as int), ';'),
        decreases line.len() - k,
    {
        k = k + 1;
        assert(free_of(line@.subrange(0, k as int), ';')) by {
            assert forall|x: int| 0 <= x < k implies line@.subrange(0, k as int)[x] != ';' by {
                if x < k - 1 {
                    assert(line@.subrange(0, k as int)[x] == line@.subrange(0, k - 1)[x]);
                }
            }
        }
    }
    if k == line.len() {
        proof {
            assert(line@.subrange(0, k as int) =~= line@);
            lemma_first_index_none(line@, ';');
        }
        return Err(ModelError::InvalidNodeValueRead(string_of(line)));
    }
    proof {
        let head = line@.subrange(0, k as int);
        let tail = line@.subrange(k + 1 as int, line@.len() as int);
        assert(line@ =~= head.push(';') + tail);
        lemma_first_index_prefix(head, tail, ';');
    }
    let head = sub_chars(line, 0, k);
    let link_weights = if head.len() == 0 {
        Vec::new()
    } else {
        strings_of(&split_on(&head, ','))
    };
    let b_weight = string_of(&sub_chars(line, k + 1, line.len()));
    let n = Node { link_weights, b_weight };
    assert(node_text(n).link_weights =~= weight_fields(head@));
    Ok(n)
}

/// Reads a model text written by `serialize_model`. Every line but the last is a node line or a
/// layer break `lb`; the last line names the activation function (a final newline is allowed).
/// Fails with `InvalidNodeValueRead` at the first node line without a semicolon, and with
/// `ActivationFunctionNotRead` when every node line reads but the last line names no activation
/// function.
pub fn parse_model(text: &str) -> (r: Result<Model<String>, ModelError>)
    ensures
        match r {
            Ok(m) => parse_text(text@) == Ok::<(Seq<Seq<NodeText>>, ActivationFunction), ReadFailure>(
                (model_text_layers(m), m.activation),
            ),
            Err(e) => parse_text(text@) == Err::<(Seq<Seq<NodeText>>, ActivationFunction), ReadFailure>(
                e@,
            ),
        },
{
    let chars = chars_of(text);
    let mut lines = split_on(&chars, '\n');
    proof {
        lemma_pieces_nonempty(text@, '\n');
    }
    let last = lines.len() - 1;
    if lines[last].len() == 0 {
        let ghost all = views(lines@);
        lines.pop();
        assert(views(lines@) =~= all.drop_last());
    }
    assert(views(lines@) == text_lines(text@));
    if lines.len() == 0 {
        return Err(ModelError::ActivationFunctionNotRead);
    }
    let body_len = lines.len() - 1;
    let ghost body = views(lines@).drop_last();
    let mut done: Vec<Vec<Node<String>>> = Vec::new();
    let mut cur: Vec<Node<String>> = Vec::new();
    assert(body.subrange(0, 0) =~= Seq::<Seq<char>>::empty());
    assert(done@.map_values(|l: Vec<Node<String>>| layer_text(l)) =~= Seq::<Seq<NodeText>>::empty());
    assert(layer_text(cur) =~= Seq::<NodeText>::empty());
    let mut i: usize = 0;
    while i < body_len
        invariant
            body_len + 1 == lines@.len(),
            body == views(lines@).drop_last(),
            views(lines@) == text_lines(text@),
            i <= body_len,
            group_lines(body.subrange(0, i as int)) == Ok::<
                (Seq<Seq<NodeText>>, Seq<NodeText>),
                ReadFailure,
            >((done@.map_values(|l: Vec<Node<String>>| layer_text(l)), layer_text(cur))),
        decreases body_len - i,
    {
        let ghost done_before = done@;
        let ghost cur_before = cur@;
        assert(body.subrange(0, i + 1).drop_last() =~= body.subrange(0, i as int));
        assert(body.subrange(0, i + 1).last() == lines@[i as int]@);
        if chars_eq(&lines[i], &layer_break_chars()) {
            done.push(cur);
            cur = Vec::new();
            assert(done@.map_values(|l: Vec<Node<String>>| layer_text(l)) =~= done_before.map_values(
                |l: Vec<Node<String>>| layer_text(l),
            ).push(layer_text(done@.last())));
            assert(layer_text(cur) =~= Seq::<NodeText>::empty());
        } else {
            match parse_node(&lines[i]) {
                Ok(n) => {
                    cur.push(n);
                    assert(layer_text(cur) =~= layer_text_seq(cur_before).push(node_text(n)));
                },
                Err(e) => {
                    proof {
                        let sub = body.subrange(0, i + 1);
                        assert(sub.drop_last() =~= body.subrange(0, i as int));
                        assert(sub.last() == lines@[i as int]@);
                        assert(lines@[i as int]@ != layer_break());
                        assert(group_lines(sub) == Err::<(Seq<Seq<NodeText>>, Seq<NodeText>), ReadFailure>(e@));
                        lemma_group_error_persists(body, i + 1);
                        assert(group_lines(body) == Err::<(Seq<Seq<NodeText>>, Seq<NodeText>), ReadFailure>(e@));
                        assert(text_lines(text@).drop_last() == body);
                    }
                    return Err(e);
                },
            }
        }
        i = i + 1;
    }
    assert(body.subrange(0, i as int) =~= body);
    match ActivationFunction::from_name(&lines[body_len]) {
        Some(activation) => {
            let m = Model { layers: done, activation };
            assert(model_text_layers(m) =~= done@.map_values(|l: Vec<Node<String>>| layer_text(l)));
            Ok(m)
        },
        None => Err(ModelError::ActivationFunctionNotRead),
    }
}

/// The decimal digit for `d`.
pub open spec fn digit_char(d: nat) -> char {
    seq!['0', '1', '2', '3', '4', '5', '6', '7', '8', '9'][d as int]
}

/// `n` written in decimal, without leading zeros.
pub open spec fn decimal(n: nat) -> Seq<char>
    decreases n,
{
    if n < 10 {
        seq![digit_char(n)]
    } else {
        decimal(n / 10).push(digit_char(n % 10))
    }
}

/// The file name of a model called `name` with the number `suffix`: `model_<name>_<suffix>.darj`.
pub open spec fn spec_model_file_name(name: Seq<char>, suffix: nat) -> Seq<char> {
    seq!['m', 'o', 'd', 'e', 'l', '_'] + name + seq!['_'] + decimal(suffix) + seq!['.', 'd', 'a', 'r', 'j']
}

fn push_decimal(out: &mut Vec<char>, n: u32)
    ensures
        final(out)@ == old(out)@ + decimal(n as nat),
    decreases n,
{
    if n >= 10 {
        push_decimal(out, n / 10);
    }
    let digits = vec!['0', '1', '2', '3', '4', '5', '6', '7', '8', '9'];
    let d = (n % 10) as usize;
    proof {
        assert(digits@ =~= seq!['0', '1', '2', '3', '4', '5', '6', '7', '8', '9']);
    }
    out.push(digits[d]);
    proof {
        if n >= 10 {
            assert(old(out)@ + decimal(n as nat) =~= (old(out)@ + decimal((n / 10) as nat)).push(digit_char((n % 10) as nat)));
        } else {
            assert(old(out)@ + decimal(n as nat) =~= old(out)@.push(digit_char(n as nat)));
        }
    }
}

/// The file name of a model called `name` with the number `suffix`.
pub fn model_file_name(name: &str, suffix: u32) -> (r: String)
    ensures
        r@ == spec_model_file_name(name@, suffix as nat),
{
    let mut out = vec!['m', 'o', 'd', 'e', 'l', '_'];
    push_all(&mut out, &chars_of(name));
    out.push('_');
    push_decimal(&mut out, suffix);
    let ext = vec!['.', 'd', 'a', 'r', 'j'];
    push_all(&mut out, &ext);
    assert(out@ =~= spec_model_file_name(name@, suffix as nat));
    string_of(&out)
}

/// Relies on `rand::random::<u32>`: a number drawn from the thread-local generator; nothing is
/// known of its value.
#[verifier::external_body]
fn random_suffix() -> u32 {
    rand::random::<u32>()
}

/// A file name for a model called `name`, with a freshly drawn random number.
pub fn new_model_file_name(name: &str) -> (r: String)
    ensures
        exists|suffix: u32| r@ == spec_model_file_name(name@, suffix as nat),
{
    let suffix = random_suffix();
    model_file_name(name, suffix)
}

} // verus!
