use vstd::prelude::*;

use crate::neural_network::activation_function::ActivationFunction;
use crate::neural_network::layer::Layer;
use crate::neural_network::layer_topology::LayerTopology;
use crate::neural_network::matrix::Matrix;

verus! {

/// An ordered composition of layers forming a forward-inference pipeline.
///
/// The verified core pins down everything structural about a network: the
/// chained shape compatibility of its layers, the topology it reports, and
/// the canonical flat layout of its parameters (the genome) that an outside
/// optimizer mutates and decodes. Numeric evaluation of the pipeline decodes
/// the parameter codes and runs in the unverified numeric front end.
#[derive(Clone, Debug, PartialEq, Eq)]
pub struct Network {
    pub layers: Vec<Layer>,
}

/// The canonical genome of a layer sequence: each layer's weight entries in
/// row-major order followed by its biases, layer after layer.
pub open spec fn genome_of(layers: Seq<Layer>) -> Seq<u32>
    decreases layers.len(),
{
    if layers.len() == 0 {
        Seq::empty()
    } else {
        layers[0].genome() + genome_of(layers.skip(1))
    }
}

/// How many genome entries the first `i` layers described by a topology
/// consume: the pair `(t[k], t[k+1])` takes `t[k].n * t[k+1].n` weight
/// entries plus `t[k+1].n` biases.
pub open spec fn genome_offset(t: Seq<LayerTopology>, i: int) -> int
    decreases i,
{
    if i <= 0 {
        0
    } else {
        genome_offset(t, i - 1) + t[i - 1].n_neurons * t[i].n_neurons + t[i].n_neurons
    }
}

/// The exact number of genome entries a whole topology requires.
pub open spec fn genome_len_of_topology(t: Seq<LayerTopology>) -> int {
    genome_offset(t, t.len() - 1)
}

/// What decoding slot `i` of a topology out of a genome yields: shapes and
/// activation from the adjacent pair `(t[i], t[i+1])`, weight entries sliced
/// row-major at the canonical offset, biases right after them.
pub open spec fn decoded_layer(l: Layer, g: Seq<u32>, t: Seq<LayerTopology>, i: int) -> bool {
    let off = genome_offset(t, i);
    let rows = t[i + 1].n_neurons;
    let cols = t[i].n_neurons;
    &&& l.weights.rows == rows
    &&& l.weights.cols == cols
    &&& l.activation_function == t[i + 1].activation_function
    &&& l.weights.data@ == g.subrange(off, off + rows * cols)
    &&& l.biases@ == g.subrange(off + rows * cols, off + rows * cols + rows)
}

/// Appending a layer appends its genome slice.
proof fn lemma_genome_of_snoc(ls: Seq<Layer>, l: Layer)
    ensures
        genome_of(ls.push(l)) == genome_of(ls) + l.genome(),
    decreases ls.len(),
{
    if ls.len() == 0 {
        assert(ls.push(l)[0] == l);
        assert(ls.push(l).skip(1) =~= Seq::<Layer>::empty());
        assert(genome_of(ls.push(l)) == l.genome() + genome_of(Seq::<Layer>::empty()));
        assert(genome_of(ls.push(l)) =~= genome_of(ls) + l.genome());
    } else {
        assert(ls.push(l)[0] == ls[0]);
        assert(ls.push(l).skip(1) =~= ls.skip(1).push(l));
        lemma_genome_of_snoc(ls.skip(1), l);
        assert(genome_of(ls.push(l)) == ls[0].genome() + (genome_of(ls.skip(1)) + l.genome()));
        assert(genome_of(ls.push(l)) =~= genome_of(ls) + l.genome());
    }
}

/// Elementwise agreement of two layers: same shape, same weight entries,
/// same biases, same activation.
pub open spec fn layer_matches(a: Layer, b: Layer) -> bool {
    &&& a.weights.rows == b.weights.rows
    &&& a.weights.cols == b.weights.cols
    &&& a.weights.data@ == b.weights.data@
    &&& a.biases@ == b.biases@
    &&& a.activation_function == b.activation_function
}

/// A layer sequence's genome splits at any layer boundary.
proof fn lemma_genome_of_split(ls: Seq<Layer>, i: int)
    requires
        0 <= i <= ls.len(),
    ensures
        genome_of(ls) == genome_of(ls.take(i)) + genome_of(ls.skip(i)),
    decreases i,
{
    if i == 0 {
        assert(ls.take(0) =~= Seq::<Layer>::empty());
        assert(ls.skip(0) =~= ls);
        assert(genome_of(ls) =~= genome_of(ls.take(0)) + genome_of(ls.skip(0)));
    } else {
        lemma_genome_of_split(ls.skip(1), i - 1);
        assert(ls.skip(1).take(i - 1) =~= ls.take(i).skip(1));
        assert(ls.skip(1).skip(i - 1) =~= ls.skip(i));
        assert(ls.take(i)[0] == ls[0]);
        assert(genome_of(ls.take(i)) == ls[0].genome() + genome_of(ls.take(i).skip(1)));
        assert(genome_of(ls) =~= genome_of(ls.take(i)) + genome_of(ls.skip(i)));
    }
}

/// Later decode slots sit at offsets no smaller than earlier ones.
proof fn lemma_genome_offset_nondecreasing(t: Seq<LayerTopology>, i: int, j: int)
    requires
        i <= j,
    ensures
        genome_offset(t, i) <= genome_offset(t, j),
    decreases j - i,
{
    if i < j {
        lemma_genome_offset_nondecreasing(t, i, j - 1);
        assert(t[j - 1].n_neurons * t[j].n_neurons >= 0) by (nonlinear_arith);
    }
}

impl Network {
    /// Shape invariant: at least one layer, each layer well formed, and each
    /// layer reading exactly as many inputs as the previous one has neurons.
    pub open spec fn wf(self) -> bool {
        &&& self.layers@.len() >= 1
        &&& forall|i: int| 0 <= i < self.layers@.len() ==> (#[trigger] self.layers@[i]).wf()
        &&& forall|i: int|
            0 <= i < self.layers@.len() - 1 ==> (#[trigger] self.layers@[i + 1]).weights.cols
                == self.layers@[i].weights.rows
    }

    pub open spec fn input_size_spec(self) -> usize {
        self.layers@[0].weights.cols
    }

    pub open spec fn output_size_spec(self) -> usize {
        self.layers@[self.layers@.len() - 1].weights.rows
    }

    /// The topology a network reports: a leading descriptor for the input
    /// dimensionality (whose activation is the `Linear` placeholder, since
    /// the input layer applies no transform), then each layer's descriptor
    /// in order.
    pub open spec fn topology_spec(self) -> Seq<LayerTopology> {
        Seq::new(
            self.layers@.len() + 1,
            |i: int|
                if i == 0 {
                    LayerTopology {
                        n_neurons: self.input_size_spec(),
                        activation_function: ActivationFunction::Linear,
                    }
                } else {
                    self.layers@[i - 1].topology_spec()
                },
        )
    }

    /// Builds a network from an explicit layer sequence. A sequence that is
    /// empty or breaks the input/output chaining between adjacent layers
    /// does not describe a network, so the caller must present one that
    /// satisfies both.
    pub fn new(layers: Vec<Layer>) -> (n: Network)
        requires
            layers@.len() >= 1,
            forall|i: int| 0 <= i < layers@.len() ==> (#[trigger] layers@[i]).wf(),
            forall|i: int|
                0 <= i < layers@.len() - 1 ==> (#[trigger] layers@[i + 1]).weights.cols
                    == layers@[i].weights.rows,
        ensures
            n.wf(),
            n.layers == layers,
    {
        Network { layers }
    }

    pub fn input_size(&self) -> (s: usize)
        requires
            self.wf(),
        ensures
            s == self.input_size_spec(),
    {
        self.layers[0].n_inputs()
    }

    pub fn output_size(&self) -> (s: usize)
        requires
            self.wf(),
        ensures
            s == self.output_size_spec(),
    {
        self.layers[self.layers.len() - 1].n_neurons()
    }

    /// Reports the network's topology. Together with the genome this is
    /// enough to rebuild the network.
    #[verifier::loop_isolation(false)]
    pub fn topology(&self) -> (t: Vec<LayerTopology>)
        requires
            self.wf(),
        ensures
            t@ == self.topology_spec(),
    {
        let mut t: Vec<LayerTopology> = Vec::new();
        t.push(LayerTopology::new(self.input_size(), ActivationFunction::Linear));
        let mut i: usize = 0;
        while i < self.layers.len()
            invariant
                i <= self.layers@.len(),
                t@.len() == i + 1,
                t@[0] == self.topology_spec()[0],
                forall|k: int| 0 <= k < i ==> t@[k + 1] == self.layers@[k].topology_spec(),
            decreases self.layers@.len() - i,
        {
            let lt = self.layers[i].topology();
            t.push(lt);
            i += 1;
        }
        proof {
            assert(t@ =~= self.topology_spec());
        }
        t
    }

    /// A randomly initialized network for a topology chain: one layer per
    /// adjacent descriptor pair, shaped by the pair and reading its
    /// activation from the second member (the first descriptor only fixes
    /// the input dimensionality and never gets its own weight matrix). The
    /// caller supplies one freshly sampled weight matrix per layer — the
    /// sampling policy depends on the activation and runs in the numeric
    /// front end — and every bias starts at the zero code.
    ///
    /// The reported topology reproduces every neuron count and every
    /// activation but the leading one, which the report always shows as
    /// `Linear`; a request whose leading activation is `Linear` is
    /// reproduced exactly.
    #[verifier::loop_isolation(false)]
    pub fn random(topologies: &Vec<LayerTopology>, weights: Vec<Matrix>) -> (n: Network)
        requires
            topologies@.len() >= 2,
            forall|i: int| 0 <= i < topologies@.len() ==> (#[trigger] topologies@[i]).n_neurons >= 1,
            weights@.len() == topologies@.len() - 1,
            forall|i: int|
                0 <= i < weights@.len() ==> (#[trigger] weights@[i]).wf() && weights@[i].rows
                    == topologies@[i + 1].n_neurons && weights@[i].cols
                    == topologies@[i].n_neurons,
        ensures
            n.wf(),
            n.layers@.len() == topologies@.len() - 1,
            forall|i: int|
                0 <= i < n.layers@.len() ==> (#[trigger] n.layers@[i]).weights == weights@[i]
                    && n.layers@[i].activation_function == topologies@[i + 1].activation_function
                    && n.layers@[i].biases@.len() == topologies@[i + 1].n_neurons,
            forall|i: int, j: int|
                0 <= i < n.layers@.len() && 0 <= j < n.layers@[i].biases@.len()
                    ==> (#[trigger] n.layers@[i].biases@[j]) == 0u32,
            n.topology_spec().len() == topologies@.len(),
            forall|i: int|
                0 <= i < topologies@.len() ==> (#[trigger] n.topology_spec()[i]).n_neurons
                    == topologies@[i].n_neurons,
            forall|i: int|
                1 <= i < topologies@.len() ==> (#[trigger] n.topology_spec()[i]).activation_function
                    == topologies@[i].activation_function,
            topologies@[0].activation_function == ActivationFunction::Linear ==> n.topology_spec()
                == topologies@,
    {
        let ghost ws = weights@;
        let mut weights = weights;
        let mut layers: Vec<Layer> = Vec::new();
        let mut i: usize = 0;
        while i < topologies.len() - 1
            invariant
                i <= topologies@.len() - 1,
                weights@ == ws.skip(i as int),
                layers@.len() == i,
                forall|k: int|
                    0 <= k < i ==> (#[trigger] layers@[k]).wf() && layers@[k].weights == ws[k]
                        && layers@[k].activation_function == topologies@[k + 1].activation_function
                        && layers@[k].biases@.len() == topologies@[k + 1].n_neurons,
                forall|k: int, j: int|
                    0 <= k < i && 0 <= j < layers@[k].biases@.len()
                        ==> (#[trigger] layers@[k].biases@[j]) == 0u32,
            decreases topologies@.len() - 1 - i,
        {
            let w = weights.remove(0);
            proof {
                assert(w == ws[i as int]);
                assert(weights@ =~= ws.skip(i as int + 1));
            }
            let l = Layer::random(
                topologies[i].n_neurons,
                topologies[i + 1].n_neurons,
                topologies[i + 1].activation_function,
                w,
            );
            layers.push(l);
            i += 1;
        }
        let n = Network::new(layers);
        proof {
            if topologies@[0].activation_function == ActivationFunction::Linear {
                assert(n.topology_spec() =~= topologies@);
            }
        }
        n
    }

    /// Flattens the network's parameters into the canonical genome order:
    /// for each layer in network order, all weight entries row-major, then
    /// all biases. An outside optimizer depends on exactly this layout.
    #[verifier::loop_isolation(false)]
    pub fn to_genome(&self) -> (g: Vec<u32>)
        requires
            self.wf(),
        ensures
            g@ == genome_of(self.layers@),
    {
        let mut g: Vec<u32> = Vec::new();
        let mut i: usize = 0;
        while i < self.layers.len()
            invariant
                i <= self.layers@.len(),
                g@ == genome_of(self.layers@.take(i as int)),
            decreases self.layers@.len() - i,
        {
            let ghost g_pre = g@;
            let mut k: usize = 0;
            while k < self.layers[i].weights.data.len()
                invariant
                    i < self.layers@.len(),
                    k <= self.layers@[i as int].weights.data@.len(),
                    g@ == g_pre + self.layers@[i as int].weights.data@.take(k as int),
                decreases self.layers@[i as int].weights.data@.len() - k,
            {
                let x = self.layers[i].weights.data[k];
                g.push(x);
                proof {
                    assert(g@ =~= g_pre + self.layers@[i as int].weights.data@.take(
                        k as int + 1,
                    ));
                }
                k += 1;
            }
            proof {
                assert(self.layers@[i as int].weights.data@.take(
                    self.layers@[i as int].weights.data@.len() as int,
                ) =~= self.layers@[i as int].weights.data@);
            }
            let mut k: usize = 0;
            while k < self.layers[i].biases.len()
                invariant
                    i < self.layers@.len(),
                    k <= self.layers@[i as int].biases@.len(),
                    g@ == g_pre + self.layers@[i as int].weights.data@ + self.layers@[i as int].biases@.take(
                        k as int,
                    ),
                decreases self.layers@[i as int].biases@.len() - k,
            {
                let x = self.layers[i].biases[k];
                g.push(x);
                proof {
                    assert(g@ =~= g_pre + self.layers@[i as int].weights.data@
                        + self.layers@[i as int].biases@.take(k as int + 1));
                }
                k += 1;
            }
            proof {
                assert(self.layers@[i as int].biases@.take(
                    self.layers@[i as int].biases@.len() as int,
                ) =~= self.layers@[i as int].biases@);
                lemma_genome_of_snoc(self.layers@.take(i as int), self.layers@[i as int]);
                assert(self.layers@.take(i as int).push(self.layers@[i as int]) =~= self.layers@.take(
                    i as int + 1,
                ));
                assert(g@ =~= genome_of(self.layers@.take(i as int + 1)));
            }
            i += 1;
        }
        proof {
            assert(self.layers@.take(self.layers@.len() as int) =~= self.layers@);
        }
        g
    }

    /// Rebuilds a network by consuming a genome sequentially in the
    /// canonical order: for each adjacent topology pair, first the weight
    /// entries row-major, then the biases. The genome must hold at least as
    /// many entries as the topology requires; trailing entries beyond that
    /// count are deliberately left unconsumed, so a fixed-size chromosome
    /// vector can serve topologies of different depths.
    #[verifier::loop_isolation(false)]
    pub fn from_genome(genome: Vec<u32>, topology: &Vec<LayerTopology>) -> (n: Network)
        requires
            topology@.len() >= 2,
            forall|i: int| 0 <= i < topology@.len() ==> (#[trigger] topology@[i]).n_neurons >= 1,
            genome@.len() >= genome_len_of_topology(topology@),
        ensures
            n.wf(),
            n.layers@.len() == topology@.len() - 1,
            forall|i: int|
                0 <= i < n.layers@.len() ==> decoded_layer(
                    #[trigger] n.layers@[i],
                    genome@,
                    topology@,
                    i,
                ),
    {
        let g_total = genome.len();
        let mut layers: Vec<Layer> = Vec::new();
        let mut pos: usize = 0;
        let mut i: usize = 0;
        while i < topology.len() - 1
            invariant
                i <= topology@.len() - 1,
                layers@.len() == i,
                pos == genome_offset(topology@, i as int),
                forall|k: int| 0 <= k < i ==> (#[trigger] layers@[k]).wf(),
                forall|k: int|
                    0 <= k < i ==> decoded_layer(#[trigger] layers@[k], genome@, topology@, k),
            decreases topology@.len() - 1 - i,
        {
            let cols = topology[i].n_neurons;
            let rows = topology[i + 1].n_neurons;
            proof {
                lemma_genome_offset_nondecreasing(topology@, i as int + 1, topology@.len() - 1);
                assert(genome_offset(topology@, i as int + 1) == pos + cols * rows + rows);
                assert(pos + cols * rows + rows <= g_total);
                assert(cols * rows == rows * cols) by (nonlinear_arith);
            }
            let w_len = rows * cols;
            let mut data: Vec<u32> = Vec::new();
            let mut k: usize = 0;
            while k < w_len
                invariant
                    k <= w_len,
                    data@ == genome@.subrange(pos as int, pos as int + k),
                decreases w_len - k,
            {
                let x = genome[pos + k];
                data.push(x);
                proof {
                    assert(data@ =~= genome@.subrange(pos as int, pos as int + k + 1));
                }
                k += 1;
            }
            let weights = Matrix::new(rows, cols, data);
            let mut biases: Vec<u32> = Vec::new();
            let mut k: usize = 0;
            while k < rows
                invariant
                    k <= rows,
                    biases@ == genome@.subrange(
                        pos as int + w_len,
                        pos as int + w_len + k,
                    ),
                decreases rows - k,
            {
                let x = genome[pos + w_len + k];
                biases.push(x);
                proof {
                    assert(biases@ =~= genome@.subrange(
                        pos as int + w_len,
                        pos as int + w_len + k + 1,
                    ));
                }
                k += 1;
            }
            let l = Layer::new(weights, biases, topology[i + 1].activation_function);
            layers.push(l);
            pos = pos + w_len + rows;
            i += 1;
        }
        Network::new(layers)
    }
}

/// The canonical offset of decode slot `i` in a network's own topology is
/// the length of the genome of its first `i` layers.
proof fn lemma_offset_is_genome_len(n: Network, i: int)
    requires
        n.wf(),
        0 <= i <= n.layers@.len(),
    ensures
        genome_offset(n.topology_spec(), i) == genome_of(n.layers@.take(i)).len(),
    decreases i,
{
    if i == 0 {
        assert(n.layers@.take(0) =~= Seq::<Layer>::empty());
    } else {
        lemma_offset_is_genome_len(n, i - 1);
        lemma_genome_of_snoc(n.layers@.take(i - 1), n.layers@[i - 1]);
        assert(n.layers@.take(i - 1).push(n.layers@[i - 1]) =~= n.layers@.take(i));
        let t = n.topology_spec();
        let l = n.layers@[i - 1];
        assert(t[i].n_neurons == l.weights.rows);
        if i >= 2 {
            assert(n.layers@[(i - 2) + 1].weights.cols == n.layers@[i - 2].weights.rows);
        }
        assert(t[i - 1].n_neurons == l.weights.cols);
        assert(l.genome().len() == l.weights.rows * l.weights.cols + l.weights.rows);
        assert(t[i - 1].n_neurons * t[i].n_neurons == l.weights.rows * l.weights.cols)
            by (nonlinear_arith)
            requires
                t[i - 1].n_neurons == l.weights.cols,
                t[i].n_neurons == l.weights.rows,
        ;
    }
}

/// A well-formed network's genome is exactly as long as its own topology
/// demands, and that topology is a valid decode request.
pub proof fn lemma_genome_matches_topology(n: Network)
    requires
        n.wf(),
    ensures
        n.topology_spec().len() >= 2,
        forall|i: int|
            0 <= i < n.topology_spec().len() ==> (#[trigger] n.topology_spec()[i]).n_neurons >= 1,
        genome_of(n.layers@).len() == genome_len_of_topology(n.topology_spec()),
{
    lemma_offset_is_genome_len(n, n.layers@.len() as int);
    assert(n.layers@.take(n.layers@.len() as int) =~= n.layers@);
    assert forall|i: int|
        0 <= i < n.topology_spec().len() implies (#[trigger] n.topology_spec()[i]).n_neurons
        >= 1 by {
        if i == 0 {
            assert(n.layers@[0].wf());
        } else {
            assert(n.layers@[i - 1].wf());
        }
    }
}

/// Round-trip law: decoding a network's own genome against its own reported
/// topology reproduces the network. Any layer sequence whose slots all
/// satisfy `decoded_layer` for that genome and topology — which is exactly
/// what `from_genome` returns — agrees elementwise with the original's
/// layers: same shapes, same weight entries, same biases, same activations.
pub proof fn lemma_genome_round_trip(n: Network, m: Network)
    requires
        n.wf(),
        m.layers@.len() == n.topology_spec().len() - 1,
        forall|i: int|
            0 <= i < m.layers@.len() ==> decoded_layer(
                #[trigger] m.layers@[i],
                genome_of(n.layers@),
                n.topology_spec(),
                i,
            ),
    ensures
        m.layers@.len() == n.layers@.len(),
        forall|i: int|
            0 <= i < n.layers@.len() ==> layer_matches(#[trigger] m.layers@[i], n.layers@[i]),
{
    let t = n.topology_spec();
    let g = genome_of(n.layers@);
    assert forall|i: int|
        0 <= i < n.layers@.len() implies layer_matches(
        #[trigger] m.layers@[i],
        n.layers@[i],
    ) by {
        let l = n.layers@[i];
        lemma_offset_is_genome_len(n, i);
        lemma_genome_of_split(n.layers@, i);
        assert(n.layers@.skip(i)[0] == l);
        assert(genome_of(n.layers@.skip(i)) == l.genome() + genome_of(n.layers@.skip(i).skip(1)));
        let off = genome_offset(t, i);
        assert(t[i + 1].n_neurons == l.weights.rows);
        if i >= 1 {
            assert(n.layers@[(i - 1) + 1].weights.cols == n.layers@[i - 1].weights.rows);
        }
        assert(t[i].n_neurons == l.weights.cols);
        assert(l.wf());
        assert(g.subrange(off, off + l.weights.rows * l.weights.cols) =~= l.weights.data@);
        assert(g.subrange(
            off + l.weights.rows * l.weights.cols,
            off + l.weights.rows * l.weights.cols + l.weights.rows,
        ) =~= l.biases@);
    }
}

} // verus!
