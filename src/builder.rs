//! A staged, move-based builder that assembles layers into a network and can
//! wire every pair of consecutive layers densely.
//!
//! Every step consumes the builder and returns the next one. Failed steps
//! (sealing an empty layer, connecting from an address that does not exist)
//! leave the builder unchanged, so the chain can always go on.
use vstd::prelude::*;

use crate::models::{InputNeuron, NeuronModel, OutputNeuron};
use crate::network::{gathered, in_range, matching, sizes, Connection, Layer, NeuralNetwork, Neuron};

verus! {

/// Where connection weights come from when a network is wired
/// automatically (usually a random draw from a fixed range).
pub trait WeightSource<S> {
    /// How many weights this source has produced so far.
    spec fn draws(&self) -> usize;

    /// The weight this source produced as its n-th (counting from zero).
    spec fn produced(&self, n: usize) -> S;

    /// Produces the weight of the next connection, and records it as
    /// produced.
    fn generate_weight(&mut self) -> (r: S)
        ensures
            old(self).draws() < usize::MAX ==> {
                &&& final(self).draws() == old(self).draws() + 1
                &&& r == final(self).produced(old(self).draws())
                &&& forall|n: usize| n < old(self).draws() ==> #[trigger] final(self).produced(n) == old(self).produced(n)
            },
    ;
}

/// The number of units in the layer after layer `a` of a network with
/// layer sizes `sz`, or zero for the last.
pub open spec fn next_width(sz: Seq<nat>, a: int) -> nat {
    if 0 <= a && a + 1 < sz.len() {
        sz[a + 1]
    } else {
        0
    }
}

/// How many weights dense wiring of a network with layer sizes `sz` draws
/// before it reaches unit b of layer a: every unit before it, layer by layer
/// and in order, draws one per unit of its next layer.
pub open spec fn draw_offset(sz: Seq<nat>, a: nat, b: nat) -> nat
    decreases a, b,
{
    if b > 0 {
        draw_offset(sz, a, (b - 1) as nat) + next_width(sz, a as int)
    } else if a > 0 {
        draw_offset(sz, (a - 1) as nat, sz[a - 1])
    } else {
        0
    }
}

/// How many weights dense wiring of a network with layer sizes `sz` draws.
pub open spec fn dense_total(sz: Seq<nat>) -> nat {
    if sz.len() == 0 {
        0
    } else {
        draw_offset(sz, (sz.len() - 1) as nat, sz.last())
    }
}

/// The connections `after` has beyond those of `before`, `count` of them,
/// carry the weights `src` produced from its `base`-th draw on, in order.
pub open spec fn weights_drawn<S, R: WeightSource<S>>(
    before: Neuron<S>,
    after: Neuron<S>,
    count: nat,
    src: R,
    base: int,
) -> bool {
    &&& count == 0 || base + count <= src.draws()
    &&& forall|t: int|
        before.connections@.len() <= t < before.connections@.len() + count ==> #[trigger] after.connections@[t].weight
            == src.produced((base + t - before.connections@.len()) as usize)
}

proof fn lemma_draw_offset_step(sz: Seq<nat>, a: nat, b: nat)
    ensures
        draw_offset(sz, a, b + 1) == draw_offset(sz, a, b) + next_width(sz, a as int),
        a > 0 ==> draw_offset(sz, a, 0) == draw_offset(sz, (a - 1) as nat, sz[a - 1]),
{
}

/// The offset grows along the wiring order.
proof fn lemma_draw_offset_mono(sz: Seq<nat>, a: nat, b: nat, a2: nat, b2: nat)
    requires
        a < a2 || (a == a2 && b <= b2),
        a < sz.len(),
        b <= sz[a as int],
    ensures
        draw_offset(sz, a, b) <= draw_offset(sz, a2, b2),
    decreases a2, b2,
{
    if a == a2 && b == b2 {
    } else if b2 > 0 {
        lemma_draw_offset_mono(sz, a, b, a2, (b2 - 1) as nat);
    } else {
        lemma_draw_offset_mono(sz, a, b, (a2 - 1) as nat, sz[a2 - 1]);
    }
}

/// Past the last layer nothing more is drawn.
proof fn lemma_draw_offset_last(sz: Seq<nat>, b: nat)
    requires
        sz.len() > 0,
    ensures
        draw_offset(sz, (sz.len() - 1) as nat, b) == draw_offset(sz, (sz.len() - 1) as nat, 0),
    decreases b,
{
    if b > 0 {
        lemma_draw_offset_last(sz, (b - 1) as nat);
    }
}

/// The sizes a builder holds: the committed layers' sizes, the size of the
/// layer in progress, and the number of output units still to come.
pub type BuildShape = (Seq<nat>, nat, nat);

/// The shape right after starting with `inputs` input units and `outputs`
/// output units: the input layer is committed unless it is empty.
pub open spec fn start_shape(inputs: nat, outputs: nat) -> BuildShape {
    (if inputs > 0 { seq![inputs] } else { Seq::empty() }, 0, outputs)
}

/// The shape after one unit is added to the layer in progress.
pub open spec fn add_shape(s: BuildShape) -> BuildShape {
    (s.0, s.1 + 1, s.2)
}

/// The shape after `n` units are added to the layer in progress.
pub open spec fn add_shape_times(s: BuildShape, n: nat) -> BuildShape
    decreases n,
{
    if n == 0 {
        s
    } else {
        add_shape(add_shape_times(s, (n - 1) as nat))
    }
}

/// The shape after the layer in progress is sealed; sealing an empty
/// layer changes nothing.
pub open spec fn seal_shape(s: BuildShape) -> BuildShape {
    if s.1 == 0 {
        s
    } else {
        (s.0.push(s.1), 0, s.2)
    }
}

/// The layer sizes of the network that directional construction yields:
/// the sealed layers, then the output layer unless it is empty.
pub open spec fn finished_sizes(s: BuildShape) -> Seq<nat> {
    let c = seal_shape(s).0;
    if s.2 > 0 {
        c.push(s.2)
    } else {
        c
    }
}

/// Adding `n` units grows the layer in progress by `n` and touches nothing else.
pub proof fn lemma_add_shape_times(s: BuildShape, n: nat)
    ensures
        add_shape_times(s, n) == (s.0, s.1 + n, s.2),
    decreases n,
{
    if n > 0 {
        lemma_add_shape_times(s, (n - 1) as nat);
    }
}

/// Starting with `n` inputs and `m` outputs, adding `h` units and sealing
/// that layer, directional construction yields exactly three layers of
/// sizes `n`, `h` and `m`.
pub proof fn lemma_hidden_layer_sizes(n: nat, m: nat, h: nat)
    requires
        n > 0,
        m > 0,
        h > 0,
    ensures
        finished_sizes(seal_shape(add_shape_times(start_shape(n, m), h))) == seq![n, h, m],
{
    lemma_add_shape_times(start_shape(n, m), h);
    assert(finished_sizes(seal_shape(add_shape_times(start_shape(n, m), h))) =~= seq![n, h, m]);
}

/// Sealing is idempotent, and sealing an empty layer in progress changes
/// nothing: any number of seals before the next unit leaves the committed
/// layers as they were.
pub proof fn lemma_seal_idempotent(s: BuildShape)
    ensures
        seal_shape(seal_shape(s)) == seal_shape(s),
        s.1 == 0 ==> seal_shape(s) == s,
{
}

/// Whether every unit of `units` has exactly `width` connections, the t-th
/// of them to unit t of layer `layer`, as dense wiring leaves a unit that
/// had none before.
pub open spec fn dense_layer<S>(units: Seq<Neuron<S>>, layer: usize, width: nat) -> bool {
    forall|j: int|
        0 <= j < units.len() ==> {
            &&& (#[trigger] units[j]).connections@.len() == width
            &&& forall|t: int|
                0 <= t < width ==> #[trigger] units[j].connections@[t].link == (layer, t as usize)
        }
}

proof fn lemma_matching_distinct_links<S>(conns: Seq<Connection<S>>, source: usize, layer: usize, k: usize)
    requires
        forall|t: int| 0 <= t < conns.len() ==> #[trigger] conns[t].link == (layer, t as usize),
        conns.len() <= usize::MAX + 1,
    ensures
        matching(conns, source, (layer, k)) == (if k < conns.len() {
            seq![(source, conns[k as int].weight)]
        } else {
            Seq::empty()
        }),
    decreases conns.len(),
{
    if conns.len() > 0 {
        let d = conns.drop_last();
        assert forall|t: int| 0 <= t < d.len() implies #[trigger] d[t].link == (layer, t as usize) by {
            assert(d[t] == conns[t]);
        }
        lemma_matching_distinct_links(d, source, layer, k);
        assert(conns.last().link == (layer, (conns.len() - 1) as usize));
        if k < d.len() {
            assert(d[k as int] == conns[k as int]);
        }
        assert(matching(conns, source, (layer, k)) =~= (if k < conns.len() {
            seq![(source, conns[k as int].weight)]
        } else {
            Seq::empty()
        }));
    }
}

/// In a layer wired densely to the next layer, every unit k of the next
/// layer pulls exactly one input from each unit j of the layer, in order,
/// weighted by unit j's k-th connection.
pub proof fn lemma_dense_pulls_each_source_once<S>(units: Seq<Neuron<S>>, layer: usize, width: nat, k: usize)
    requires
        dense_layer(units, layer, width),
        k < width <= usize::MAX + 1,
        units.len() <= usize::MAX + 1,
    ensures
        gathered(units, (layer, k)) == Seq::new(
            units.len(),
            |j: int| (j as usize, units[j].connections@[k as int].weight),
        ),
    decreases units.len(),
{
    if units.len() > 0 {
        let d = units.drop_last();
        assert forall|j: int| 0 <= j < d.len() implies {
            &&& (#[trigger] d[j]).connections@.len() == width
            &&& forall|t: int| 0 <= t < width ==> #[trigger] d[j].connections@[t].link == (layer, t as usize)
        } by {
            assert(d[j] == units[j]);
        }
        lemma_dense_pulls_each_source_once(d, layer, width, k);
        let last = units.last();
        assert(units[units.len() - 1] == last);
        lemma_matching_distinct_links(last.connections@, (units.len() - 1) as usize, layer, k);
        assert(gathered(units, (layer, k)) =~= Seq::new(
            units.len(),
            |j: int| (j as usize, units[j].connections@[k as int].weight),
        ));
    }
}

/// The number of units in the layer after layer `i`, or zero for the last.
pub open spec fn next_size<S>(g: Seq<Seq<Neuron<S>>>, i: int) -> nat {
    if i + 1 < g.len() {
        g[i + 1].len()
    } else {
        0
    }
}

/// `after` is `before` with `count` connections appended, the k-th of them
/// to unit k of layer `layer + 1`.
pub open spec fn extended_by<S>(before: Neuron<S>, after: Neuron<S>, layer: int, count: nat) -> bool {
    &&& after.model == before.model
    &&& after.connections@.len() == before.connections@.len() + count
    &&& after.connections@.take(before.connections@.len() as int) == before.connections@
    &&& forall|t: int|
        before.connections@.len() <= t < after.connections@.len()
            ==> #[trigger] after.connections@[t].link == (
            (layer + 1) as usize,
            (t - before.connections@.len()) as usize,
        )
}

/// `after` has the layers and units of `before`, and every unit has gained
/// one connection to each unit of the next layer, in order.
pub open spec fn densely_wired<S>(before: Seq<Seq<Neuron<S>>>, after: Seq<Seq<Neuron<S>>>) -> bool {
    &&& sizes(after) == sizes(before)
    &&& forall|i: int, j: int|
        0 <= i < before.len() && 0 <= j < before[i].len() ==> extended_by(
            #[trigger] before[i][j],
            after[i][j],
            i,
            next_size(before, i),
        )
}

/// `after` is `before` with connection `c` appended to the unit at `from`.
pub open spec fn connected<S>(
    before: Seq<Seq<Neuron<S>>>,
    after: Seq<Seq<Neuron<S>>>,
    from: (usize, usize),
    c: Connection<S>,
) -> bool {
    &&& sizes(after) == sizes(before)
    &&& after[from.0 as int][from.1 as int].model == before[from.0 as int][from.1 as int].model
    &&& after[from.0 as int][from.1 as int].connections@
        == before[from.0 as int][from.1 as int].connections@.push(c)
    &&& forall|i: int, j: int|
        0 <= i < before.len() && 0 <= j < before[i].len() && (i, j) != (from.0 as int, from.1 as int)
            ==> #[trigger] after[i][j] == before[i][j]
}

/// How many connections the dense wiring pass has given the unit (a, b)
/// once it has reached unit j of layer i and given that unit k of them;
/// `full` is the number the unit gets in the end.
spec fn wired_count(i: int, j: int, k: nat, a: int, b: int, full: nat) -> nat {
    if a < i || (a == i && b < j) {
        full
    } else if a == i && b == j {
        k
    } else {
        0
    }
}

/// Gives every unit of `net`, layer by layer and in order, one connection
/// to each unit of the next layer, in order, with weights from `source`,
/// drawn in that same order.
fn connect_dense<S, R: WeightSource<S>>(net: &mut NeuralNetwork<S>, source: &mut R)
    ensures
        densely_wired(old(net)@, final(net)@),
        old(source).draws() + dense_total(sizes(old(net)@)) <= usize::MAX ==> {
            &&& final(source).draws() == old(source).draws() + dense_total(sizes(old(net)@))
            &&& forall|i: int, j: int|
                0 <= i < old(net)@.len() && 0 <= j < old(net)@[i].len() ==> weights_drawn(
                    old(net)@[i][j],
                    #[trigger] final(net)@[i][j],
                    next_size(old(net)@, i),
                    *final(source),
                    old(source).draws() + draw_offset(sizes(old(net)@), i as nat, j as nat),
                )
        },
{
    let ghost g0 = net@;
    let ghost sz = sizes(g0);
    let ghost d0 = source.draws() as int;
    let ghost fits = d0 + dense_total(sz) <= usize::MAX;
    if net.layers.len() == 0 {
        assert(sizes(net@) =~= sizes(g0));
        return;
    }
    let last = net.layers.len() - 1;
    let mut i: usize = 0;
    proof {
        assert forall|a: int, b: int|
            0 <= a < g0.len() && 0 <= b < g0[a].len() implies extended_by(
                #[trigger] g0[a][b],
                net@[a][b],
                a,
                wired_count(0, 0, 0, a, b, next_size(g0, a)),
            ) by {
            let c = g0[a][b].connections@;
            assert(c.take(c.len() as int) =~= c);
        }
    }
    while i < last
        invariant
            g0 == old(net)@,
            sz == sizes(g0),
            last + 1 == g0.len(),
            i <= last,
            sizes(net@) == sz,
            net.layers@.len() == g0.len(),
            forall|a: int, b: int|
                0 <= a < g0.len() && 0 <= b < g0[a].len() ==> extended_by(
                    #[trigger] g0[a][b],
                    net@[a][b],
                    a,
                    wired_count(i as int, 0, 0, a, b, next_size(g0, a)),
                ),
            fits == (d0 + dense_total(sz) <= usize::MAX),
            d0 == old(source).draws(),
            fits ==> source.draws() == d0 + draw_offset(sz, i as nat, 0),
            fits ==> forall|a: int, b: int|
                0 <= a < g0.len() && 0 <= b < g0[a].len() ==> weights_drawn(
                    g0[a][b],
                    #[trigger] net@[a][b],
                    wired_count(i as int, 0, 0, a, b, next_size(g0, a)),
                    *source,
                    d0 + draw_offset(sz, a as nat, b as nat),
                ),
        decreases last - i,
    {
        proof {
            assert(sizes(net@)[i as int] == sz[i as int]);
            assert(sizes(net@)[i + 1] == sz[i + 1]);
        }
        let width = net.layers[i].neurons.len();
        let next = net.layers[i + 1].neurons.len();
        let mut j: usize = 0;
        while j < width
            invariant
                g0 == old(net)@,
                sz == sizes(g0),
                last + 1 == g0.len(),
                i < last,
                j <= width,
                width == g0[i as int].len(),
                next == next_size(g0, i as int),
                sizes(net@) == sz,
                net.layers@.len() == g0.len(),
                forall|a: int, b: int|
                    0 <= a < g0.len() && 0 <= b < g0[a].len() ==> extended_by(
                        #[trigger] g0[a][b],
                        net@[a][b],
                        a,
                        wired_count(i as int, j as int, 0, a, b, next_size(g0, a)),
                    ),
                fits == (d0 + dense_total(sz) <= usize::MAX),
                d0 == old(source).draws(),
                fits ==> source.draws() == d0 + draw_offset(sz, i as nat, j as nat),
                fits ==> forall|a: int, b: int|
                    0 <= a < g0.len() && 0 <= b < g0[a].len() ==> weights_drawn(
                        g0[a][b],
                        #[trigger] net@[a][b],
                        wired_count(i as int, j as int, 0, a, b, next_size(g0, a)),
                        *source,
                        d0 + draw_offset(sz, a as nat, b as nat),
                    ),
            decreases width - j,
        {
            let mut k: usize = 0;
            while k < next
                invariant
                    g0 == old(net)@,
                    sz == sizes(g0),
                    last + 1 == g0.len(),
                    i < last,
                    j < width,
                    k <= next,
                    width == g0[i as int].len(),
                    next == next_size(g0, i as int),
                    sizes(net@) == sz,
                    net.layers@.len() == g0.len(),
                    forall|a: int, b: int|
                        0 <= a < g0.len() && 0 <= b < g0[a].len() ==> extended_by(
                            #[trigger] g0[a][b],
                            net@[a][b],
                            a,
                            wired_count(i as int, j as int, k as nat, a, b, next_size(g0, a)),
                        ),
                    fits == (d0 + dense_total(sz) <= usize::MAX),
                    d0 == old(source).draws(),
                    fits ==> source.draws() == d0 + draw_offset(sz, i as nat, j as nat) + k,
                    fits ==> forall|a: int, b: int|
                        0 <= a < g0.len() && 0 <= b < g0[a].len() ==> weights_drawn(
                            g0[a][b],
                            #[trigger] net@[a][b],
                            wired_count(i as int, j as int, k as nat, a, b, next_size(g0, a)),
                            *source,
                            d0 + draw_offset(sz, a as nat, b as nat),
                        ),
                decreases next - k,
            {
                proof {
                    if fits {
                        lemma_draw_offset_step(sz, i as nat, j as nat);
                        assert(next_width(sz, i as int) == next);
                        lemma_draw_offset_mono(sz, i as nat, (j + 1) as nat, last as nat, sz[last as int]);
                        assert(dense_total(sz) == draw_offset(sz, last as nat, sz[last as int]));
                    }
                }
                let ghost src0 = *source;
                assert(fits ==> src0.draws() < usize::MAX);
                let weight = source.generate_weight();
                let ghost before = net@;
                proof {
                    assert(sizes(net@)[i as int] == sz[i as int]);
                }
                match net.locate_mut((i, j)) {
                    Some(n) => {
                        n.connections.push(Connection::new(weight, (i + 1, k)));
                    },
                    None => {},
                }
                proof {
                    assert(sizes(net@) =~= sizes(before));
                    assert forall|a: int, b: int|
                        0 <= a < g0.len() && 0 <= b < g0[a].len() implies extended_by(
                            #[trigger] g0[a][b],
                            net@[a][b],
                            a,
                            wired_count(i as int, j as int, (k + 1) as nat, a, b, next_size(g0, a)),
                        ) && (fits ==> weights_drawn(
                            g0[a][b],
                            net@[a][b],
                            wired_count(i as int, j as int, (k + 1) as nat, a, b, next_size(g0, a)),
                            *source,
                            d0 + draw_offset(sz, a as nat, b as nat),
                        )) by {
                        assert(weights_drawn(
                            g0[a][b],
                            before[a][b],
                            wired_count(i as int, j as int, k as nat, a, b, next_size(g0, a)),
                            src0,
                            d0 + draw_offset(sz, a as nat, b as nat),
                        ) || !fits);
                        if a == i && b == j {
                            let old_len = g0[a][b].connections@.len();
                            let prev = before[a][b].connections@;
                            let cur = net@[a][b].connections@;
                            assert(cur == prev.push(Connection { weight, link: ((i + 1) as usize, k) }));
                            assert(cur.take(old_len as int) =~= prev.take(old_len as int));
                            assert forall|t: int| old_len <= t < cur.len() implies #[trigger] cur[t].link == (
                                (a + 1) as usize,
                                (t - old_len) as usize,
                            ) by {
                                if t < cur.len() - 1 {
                                    assert(cur[t] == prev[t]);
                                }
                            }
                            if fits {
                                assert forall|t: int| old_len <= t < old_len + k + 1 implies #[trigger] cur[t].weight
                                    == source.produced((d0 + draw_offset(sz, a as nat, b as nat) + t - old_len) as usize) by {
                                    let x = (d0 + draw_offset(sz, a as nat, b as nat) + t - old_len) as usize;
                                    if t < cur.len() - 1 {
                                        assert(cur[t] == prev[t]);
                                        assert(prev[t].weight == src0.produced(x));
                                        assert(x < src0.draws());
                                        assert(source.produced(x) == src0.produced(x));
                                    } else {
                                        assert(x == src0.draws());
                                    }
                                }
                            }
                        } else {
                            assert(net@[a][b] == before[a][b]);
                            if fits {
                                let old_len = g0[a][b].connections@.len();
                                let base = d0 + draw_offset(sz, a as nat, b as nat);
                                let cnt = wired_count(i as int, j as int, (k + 1) as nat, a, b, next_size(g0, a));
                                assert(cnt == wired_count(i as int, j as int, k as nat, a, b, next_size(g0, a)));
                                assert(src0.draws() < (*source).draws());
                                assert forall|t: int| old_len <= t < old_len + cnt implies #[trigger] net@[a][b].connections@[t].weight
                                    == (*source).produced((base + t - old_len) as usize) by {
                                    assert(before[a][b].connections@[t] == net@[a][b].connections@[t]);
                                    assert(before[a][b].connections@[t].weight == src0.produced((base + t - old_len) as usize));
                                    assert(base + t - old_len < src0.draws());
                                    let x = (base + t - old_len) as usize;
                                    assert(source.produced(x) == src0.produced(x));
                                }
                            }
                        }
                    }
                }
                k = k + 1;
            }
            proof {
                lemma_draw_offset_step(sz, i as nat, j as nat);
                assert(next_width(sz, i as int) == next);
            }
            j = j + 1;
        }
        proof {
            lemma_draw_offset_step(sz, (i + 1) as nat, 0);
        }
        i = i + 1;
    }
    proof {
        assert forall|a: int, b: int|
            0 <= a < g0.len() && 0 <= b < g0[a].len() implies extended_by(
                #[trigger] g0[a][b],
                net@[a][b],
                a,
                next_size(g0, a),
            ) by {
            assert(wired_count(last as int, 0, 0, a, b, next_size(g0, a)) == next_size(g0, a));
        }
        if fits {
            lemma_draw_offset_last(sz, sz[last as int]);
            assert forall|a: int, b: int|
                0 <= a < g0.len() && 0 <= b < g0[a].len() implies weights_drawn(
                    g0[a][b],
                    #[trigger] net@[a][b],
                    next_size(g0, a),
                    *source,
                    d0 + draw_offset(sz, a as nat, b as nat),
                ) by {
                assert(wired_count(last as int, 0, 0, a, b, next_size(g0, a)) == next_size(g0, a));
            }
        }
    }
}

/// A builder of networks: the layers committed so far, the layer in
/// progress, and how many output units the finished network gets.
pub struct NeuralNetworkBuilder<S> {
    layer: Layer<S>,
    network: NeuralNetwork<S>,
    outputs: usize,
}

impl<S> NeuralNetworkBuilder<S> {
    /// The layers committed so far.
    pub closed spec fn committed(&self) -> Seq<Seq<Neuron<S>>> {
        self.network@
    }

    /// The units of the layer in progress.
    pub closed spec fn pending(&self) -> Seq<Neuron<S>> {
        self.layer.neurons@
    }

    /// The number of output units the finished network gets.
    pub closed spec fn outputs(&self) -> nat {
        self.outputs as nat
    }

    /// The sizes this builder holds.
    pub open spec fn shape(&self) -> BuildShape {
        (sizes(self.committed()), self.pending().len(), self.outputs())
    }

    /// The committed layers followed by the layer in progress, unless it
    /// is empty.
    pub open spec fn sealed(&self) -> Seq<Seq<Neuron<S>>> {
        if self.pending().len() > 0 {
            self.committed().push(self.pending())
        } else {
            self.committed()
        }
    }

    /// Starts a builder: commits a first layer of `inputs` input units
    /// (all holding the one value the scalar type's default gives) and opens the next
    /// layer. The finished network gets `outputs` output units.
    pub fn new(inputs: usize, outputs: usize) -> (r: Self)
        where
            S: Default + Copy,
        ensures
            r.shape() == start_shape(inputs as nat, outputs as nat),
            forall|j: int|
                0 <= j < inputs ==> {
                    &&& (#[trigger] r.committed()[0][j]).model is Input
                    &&& r.committed()[0][j].model == r.committed()[0][0].model
                    &&& r.committed()[0][j].connections@.len() == 0
                },
    {
        let mut builder = NeuralNetworkBuilder {
            layer: Layer::new(),
            network: NeuralNetwork::empty(),
            outputs,
        };
        let value = S::default();
        let mut i: usize = 0;
        while i < inputs
            invariant
                i <= inputs,
                builder.committed().len() == 0,
                builder.outputs() == outputs,
                builder.pending().len() == i,
                forall|j: int|
                    0 <= j < i ==> {
                        &&& (#[trigger] builder.pending()[j]).model == NeuronModel::Input(InputNeuron { value })
                        &&& builder.pending()[j].connections@.len() == 0
                    },
            decreases inputs - i,
        {
            builder = builder.add_neuron(NeuronModel::Input(InputNeuron { value }));
            i = i + 1;
        }
        let r = builder.next_layer();
        assert(sizes(r.committed()) =~= start_shape(inputs as nat, outputs as nat).0);
        r
    }

    /// Seals the layer in progress: commits it and opens an empty one.
    /// Sealing an empty layer changes nothing.
    pub fn next_layer(self) -> (r: Self)
        ensures
            r.shape() == seal_shape(self.shape()),
            self.pending().len() == 0 ==> r == self,
            self.pending().len() > 0 ==> {
                &&& r.committed() == self.committed().push(self.pending())
                &&& r.pending().len() == 0
                &&& r.outputs() == self.outputs()
            },
    {
        if self.layer.neurons.len() == 0 {
            return self;
        }
        let NeuralNetworkBuilder { layer, mut network, outputs } = self;
        network.layers.push(layer);
        let b = NeuralNetworkBuilder { layer: Layer::new(), network, outputs };
        proof {
            assert(b.network@ =~= self.network@.push(self.layer.neurons@));
            assert(sizes(b.committed()) =~= sizes(self.committed()).push(self.pending().len()));
        }
        b
    }

    /// Adds a unit with the given model, and no connections, to the layer
    /// in progress; its index in the layer is the number of units added
    /// before it.
    pub fn add_neuron(self, neuron: NeuronModel<S>) -> (r: Self)
        ensures
            r.shape() == add_shape(self.shape()),
            r.committed() == self.committed(),
            r.outputs() == self.outputs(),
            r.pending() == self.pending().push(r.pending().last()),
            r.pending().last().model == neuron,
            r.pending().last().connections@.len() == 0,
    {
        let mut b = self;
        b.layer.neurons.push(Neuron::new(neuron));
        proof {
            assert(b.pending() =~= self.pending().push(b.pending().last()));
        }
        b
    }

    /// Appends a connection to `to` with `weight` to the committed unit at
    /// `from`. When `from` names no committed unit nothing changes. `to` is
    /// not checked: it may name a unit of a layer that is yet to come.
    pub fn connect(self, from: (usize, usize), to: (usize, usize), weight: S) -> (r: Self)
        ensures
            in_range(self.committed(), from) ==> {
                &&& connected(self.committed(), r.committed(), from, Connection { weight, link: to })
                &&& r.pending() == self.pending()
                &&& r.outputs() == self.outputs()
            },
            !in_range(self.committed(), from) ==> r == self,
    {
        let mut b = self;
        match b.network.locate_mut(from) {
            Some(n) => {
                n.connections.push(Connection::new(weight, to));
            },
            None => {},
        }
        proof {
            if in_range(self.committed(), from) {
                assert(sizes(b.committed()) =~= sizes(self.committed()));
            }
        }
        b
    }

    /// Finishes the network by hand-made wiring only: seals the layer in
    /// progress, if it has units, and returns the committed layers as they are.
    pub fn finish_manual(self) -> (r: NeuralNetwork<S>)
        ensures
            r@ == self.sealed(),
    {
        let b = self.next_layer();
        b.network
    }

    /// Finishes the network by directional wiring: seals the layer in
    /// progress, if it has units, appends a layer of the output units, if
    /// there are any, and then connects every unit of each layer to every
    /// unit of the next, in order, with weights drawn from `source`.
    pub fn create_directional<R: WeightSource<S>>(self, source: &mut R) -> (r: NeuralNetwork<S>)
        ensures
            sizes(r@) == finished_sizes(self.shape()),
            forall|i: int, j: int|
                0 <= i < self.sealed().len() && 0 <= j < self.sealed()[i].len() ==> extended_by(
                    self.sealed()[i][j],
                    #[trigger] r@[i][j],
                    i,
                    next_size(r@, i),
                ),
            forall|k: int|
                0 <= k < self.outputs() ==> {
                    &&& (#[trigger] r@[self.sealed().len() as int][k]).model == NeuronModel::<S>::Output(OutputNeuron)
                    &&& r@[self.sealed().len() as int][k].connections@.len() == 0
                },
            old(source).draws() + dense_total(sizes(r@)) <= usize::MAX ==> {
                &&& final(source).draws() == old(source).draws() + dense_total(sizes(r@))
                &&& forall|i: int, j: int|
                    0 <= i < self.sealed().len() && 0 <= j < self.sealed()[i].len() ==> weights_drawn(
                        self.sealed()[i][j],
                        #[trigger] r@[i][j],
                        next_size(r@, i),
                        *final(source),
                        old(source).draws() + draw_offset(sizes(r@), i as nat, j as nat),
                    )
            },
    {
        let ghost c = self.sealed();
        let outputs = self.outputs;
        let mut b = self;
        if b.layer.neurons.len() > 0 {
            b = b.next_layer();
        }
        let mut k: usize = 0;
        while k < outputs
            invariant
                k <= outputs,
                outputs == self.outputs(),
                b.committed() == c,
                b.pending().len() == k,
                forall|t: int|
                    0 <= t < k ==> {
                        &&& (#[trigger] b.pending()[t]).model == NeuronModel::<S>::Output(OutputNeuron)
                        &&& b.pending()[t].connections@.len() == 0
                    },
            decreases outputs - k,
        {
            b = b.add_neuron(NeuronModel::Output(OutputNeuron));
            k = k + 1;
        }
        let ghost p = b.pending();
        let b = b.next_layer();
        let ghost g0 = b.committed();
        let NeuralNetworkBuilder { layer: _, network, outputs: _ } = b;
        let mut net = network;
        connect_dense(&mut net, source);
        proof {
            assert(sizes(c) =~= seal_shape(self.shape()).0);
            if outputs > 0 {
                assert(sizes(g0) =~= sizes(c).push(outputs as nat));
            }
            assert(sizes(net@) =~= finished_sizes(self.shape()));
            assert forall|i: int| 0 <= i < g0.len() implies next_size(net@, i) == next_size(g0, i) by {
                if i + 1 < g0.len() {
                    assert(sizes(net@)[i + 1] == sizes(g0)[i + 1]);
                }
            }
            assert forall|i: int, j: int|
                0 <= i < c.len() && 0 <= j < c[i].len() implies extended_by(
                    c[i][j],
                    #[trigger] net@[i][j],
                    i,
                    next_size(net@, i),
                ) by {
                assert(g0[i][j] == c[i][j]);
            }
            if old(source).draws() + dense_total(sizes(net@)) <= usize::MAX {
                assert forall|i: int, j: int|
                    0 <= i < c.len() && 0 <= j < c[i].len() implies weights_drawn(
                        c[i][j],
                        #[trigger] net@[i][j],
                        next_size(net@, i),
                        *source,
                        old(source).draws() + draw_offset(sizes(net@), i as nat, j as nat),
                    ) by {
                    assert(g0[i][j] == c[i][j]);
                    assert(weights_drawn(
                        g0[i][j],
                        net@[i][j],
                        next_size(g0, i),
                        *source,
                        old(source).draws() + draw_offset(sizes(g0), i as nat, j as nat),
                    ));
                }
            }
            assert forall|k: int| 0 <= k < outputs implies {
                &&& (#[trigger] net@[c.len() as int][k]).model == NeuronModel::<S>::Output(OutputNeuron)
                &&& net@[c.len() as int][k].connections@.len() == 0
            } by {
                assert(g0[c.len() as int][k] == p[k]);
                assert(next_size(g0, c.len() as int) == 0);
                assert(extended_by(g0[c.len() as int][k], net@[c.len() as int][k], c.len() as int, 0));
            }
        }
        net
    }
}

} // verus!
