//! Genome decoding: from a 128-bit genome to a validated network topology.
//!
//! Bit layout, counting bit 127 as the most significant:
//! - bits `124..128`: the internal-neuron count (0..=15);
//! - bits `112..124`: reserved, ignored;
//! - bits `0..112`: seven 16-bit synapse descriptor slots, decoded in slot
//!   order 1..=7, slot 1 sitting just below the reserved field.
//!
//! Within a 16-bit descriptor, bit 15 flags an internal source and bit 11
//! an internal destination. The source index is read from bits 15..=14 and
//! the destination index from bits 11..=9, so each index deliberately
//! shares its top bit with the matching flag; the low byte is the
//! connection's weight code, a two's-complement value scaled by 1/32 when
//! the network is run. A descriptor whose indices fall outside the layer
//! bounds of its category is dropped at decode time, never stored, so any
//! 128-bit pattern decodes without failure.

use vstd::prelude::*;

verus! {

/// Number of input neurons every network has.
pub const N_INPUT: u8 = 3;
/// Number of output neurons every network has.
pub const N_OUTPUT: u8 = 4;

/// The internal-neuron count encoded in a genome's top four bits (0..=15).
pub open spec fn n_internal_of(g: u128) -> u128 {
    (g >> 124) & 15
}

/// Descriptor slot `i` (1..=7) of a genome, as a 16-bit value. Slot 1 holds
/// bits `96..112`, slot 7 the lowest 16 bits.
pub open spec fn slot_mask(g: u128, i: int) -> u128 {
    (g >> ((112 - 16 * i) as u128)) & 0xffff
}

/// Whether a descriptor's source is an internal neuron (bit 15).
pub open spec fn from_internal_of(m: u128) -> bool {
    m & 0x8000 != 0
}

/// A descriptor's source index (bits 15..=14).
pub open spec fn from_of(m: u128) -> u128 {
    (m & 0xc000) >> 14
}

/// Whether a descriptor's destination is an internal neuron (bit 11).
pub open spec fn to_internal_of(m: u128) -> bool {
    m & 0x0800 != 0
}

/// A descriptor's destination index (bits 11..=9).
pub open spec fn to_of(m: u128) -> u128 {
    (m & 0x0e00) >> 9
}

/// A descriptor's weight code (bits 0..=7), a two's-complement byte.
pub open spec fn weight_code_of(m: u128) -> u128 {
    m & 0xff
}

/// The five kinds of connection a descriptor can encode, told apart by its
/// two flags and, among internal-to-internal connections, by whether the
/// source and destination coincide.
#[derive(Clone, Copy, PartialEq, Eq, Structural, Debug)]
pub enum Category {
    /// Input neuron to output neuron.
    Direct,
    /// Input neuron to internal neuron.
    ToInternal,
    /// Internal neuron to output neuron.
    InternalToOutput,
    /// Internal neuron back to itself.
    SelfLoop,
    /// Internal neuron to a different internal neuron.
    InternalToInternal,
}

/// The category a descriptor falls under.
pub open spec fn category_of(m: u128) -> Category {
    if to_internal_of(m) {
        if from_internal_of(m) {
            if from_of(m) == to_of(m) {
                Category::SelfLoop
            } else {
                Category::InternalToInternal
            }
        } else {
            Category::ToInternal
        }
    } else if from_internal_of(m) {
        Category::InternalToOutput
    } else {
        Category::Direct
    }
}

/// Whether a descriptor's indices are within the layer bounds its category
/// demands, for a network with `n_internal` internal neurons. Descriptors
/// that fail this are dropped at decode time.
pub open spec fn slot_valid(m: u128, n_internal: u128) -> bool {
    match category_of(m) {
        Category::Direct => from_of(m) < 3 && to_of(m) < 4,
        Category::ToInternal => from_of(m) < 3 && to_of(m) < n_internal,
        Category::InternalToOutput => from_of(m) < n_internal && to_of(m) < 4,
        Category::SelfLoop => from_of(m) < n_internal,
        Category::InternalToInternal => from_of(m) < n_internal && to_of(m) < n_internal,
    }
}

/// One stored connection: source index, destination index, and the raw
/// two's-complement weight code (the run-time weight is the signed code
/// divided by 32).
#[derive(Clone, Copy, PartialEq, Eq, Structural, Debug)]
pub struct Synapse {
    pub from: u8,
    pub to: u8,
    pub weight_code: u8,
}

/// The synapse a descriptor decodes to.
pub open spec fn syn_of(m: u128) -> Synapse {
    Synapse {
        from: from_of(m) as u8,
        to: to_of(m) as u8,
        weight_code: weight_code_of(m) as u8,
    }
}

/// The synapses of category `c` among the first `n` descriptor slots of
/// genome `g`, in slot order.
pub open spec fn category_list(g: u128, c: Category, n: int) -> Seq<Synapse>
    decreases n,
{
    if n < 1 {
        Seq::empty()
    } else {
        let prefix = category_list(g, c, n - 1);
        let m = slot_mask(g, n);
        if category_of(m) == c && slot_valid(m, n_internal_of(g)) {
            prefix.push(syn_of(m))
        } else {
            prefix
        }
    }
}

/// The classified synapse lists of a topology, one per category, each in
/// decode (slot) order.
#[derive(Clone, PartialEq, Eq, Debug)]
pub struct SynBundle {
    /// Input to output.
    pub direct_synaps: Vec<Synapse>,
    /// Internal to output.
    pub int_out_synaps: Vec<Synapse>,
    /// Input to internal.
    pub to_int_synaps: Vec<Synapse>,
    /// Internal to itself.
    pub self_synaps: Vec<Synapse>,
    /// Internal to a different internal.
    pub int_synaps: Vec<Synapse>,
}

/// A decoded network topology: the internal-neuron count and the five
/// classified synapse lists. Immutable once decoded.
#[derive(Clone, PartialEq, Eq, Debug)]
pub struct Network {
    /// How many internal neurons this network has (0..=15).
    pub n_internal: u8,
    /// The classified synapse lists.
    pub s_bundle: SynBundle,
}

/// What it means for a topology to be the decoding of genome `g`: the
/// internal-neuron count is the genome's top nibble and each list holds
/// exactly the valid descriptors of its category, in slot order.
pub open spec fn decodes(net: Network, g: u128) -> bool {
    &&& net.n_internal == n_internal_of(g)
    &&& net.s_bundle.direct_synaps@ == category_list(g, Category::Direct, 7)
    &&& net.s_bundle.int_out_synaps@ == category_list(g, Category::InternalToOutput, 7)
    &&& net.s_bundle.to_int_synaps@ == category_list(g, Category::ToInternal, 7)
    &&& net.s_bundle.self_synaps@ == category_list(g, Category::SelfLoop, 7)
    &&& net.s_bundle.int_synaps@ == category_list(g, Category::InternalToInternal, 7)
}

/// Field bounds of a 16-bit descriptor: two flag-sharing index fields and
/// the weight byte.
proof fn lemma_slot_field_bounds(m: u128)
    ensures
        from_of(m) < 4,
        to_of(m) < 8,
        weight_code_of(m) < 256,
        from_internal_of(m) ==> from_of(m) >= 2,
        to_internal_of(m) ==> to_of(m) >= 4,
{
    assert((m & 0xc000) >> 14 < 4 && (m & 0x0e00) >> 9 < 8 && m & 0xff < 256) by (bit_vector);
    assert(m & 0x8000 != 0 ==> (m & 0xc000) >> 14 >= 2) by (bit_vector);
    assert(m & 0x0800 != 0 ==> (m & 0x0e00) >> 9 >= 4) by (bit_vector);
}

/// The genome's top nibble is below 16.
proof fn lemma_n_internal_bound(g: u128)
    ensures
        n_internal_of(g) < 16,
{
    assert((g >> 124) & 15 < 16) by (bit_vector);
}

impl Network {
    /// Decode a genome into its network topology. Every 128-bit pattern
    /// decodes; descriptors whose indices are out of bounds for their
    /// category are silently dropped, so a genome may decode to a topology
    /// with few or no synapses.
    pub fn new(genes: crate::genes::Genes) -> (net: Network)
        ensures
            decodes(net, genes.gene),
    {
        let gene: u128 = genes.gene;
        proof {
            lemma_n_internal_bound(gene);
        }
        let n_internal: u8 = ((gene >> 124) & 15) as u8;

        let mut direct_synaps: Vec<Synapse> = Vec::new();
        let mut int_out_synaps: Vec<Synapse> = Vec::new();
        let mut to_int_synaps: Vec<Synapse> = Vec::new();
        let mut self_synaps: Vec<Synapse> = Vec::new();
        let mut int_synaps: Vec<Synapse> = Vec::new();

        let mut i: u32 = 1;
        while i < 8
            invariant
                1 <= i <= 8,
                n_internal == n_internal_of(gene),
                direct_synaps@ == category_list(gene, Category::Direct, i - 1),
                int_out_synaps@ == category_list(gene, Category::InternalToOutput, i - 1),
                to_int_synaps@ == category_list(gene, Category::ToInternal, i - 1),
                self_synaps@ == category_list(gene, Category::SelfLoop, i - 1),
                int_synaps@ == category_list(gene, Category::InternalToInternal, i - 1),
            decreases 8 - i,
        {
            let off: u32 = 112 - 16 * i;
            let mask: u128 = (gene >> (off as u128)) & 0xffff;
            proof {
                assert(mask == slot_mask(gene, i as int));
                lemma_slot_field_bounds(mask);
            }
            let from_internal: bool = mask & 0x8000 != 0;
            let from: u8 = ((mask & 0xc000) >> 14) as u8;
            let to_internal: bool = mask & 0x0800 != 0;
            let to: u8 = ((mask & 0x0e00) >> 9) as u8;
            let weight_code: u8 = (mask & 0xff) as u8;
            let syn = Synapse { from, to, weight_code };

            if to_internal {
                if from_internal {
                    if from == to {
                        if from < n_internal {
                            self_synaps.push(syn);
                        }
                    } else {
                        if from < n_internal && to < n_internal {
                            int_synaps.push(syn);
                        }
                    }
                } else {
                    if from < N_INPUT && to < n_internal {
                        to_int_synaps.push(syn);
                    }
                }
            } else if from_internal {
                if from < n_internal && to < N_OUTPUT {
                    int_out_synaps.push(syn);
                }
            } else {
                if from < N_INPUT && to < N_OUTPUT {
                    direct_synaps.push(syn);
                }
            }
            i = i + 1;
        }

        Network {
            n_internal,
            s_bundle: SynBundle {
                direct_synaps,
                to_int_synaps,
                int_out_synaps,
                self_synaps,
                int_synaps,
            },
        }
    }
}

/// The three neuron layers of a network.
#[derive(Clone, Copy, PartialEq, Eq, Structural, Debug)]
pub enum Layer {
    Input,
    Internal,
    Output,
}

/// One step of the fixed evaluation pass. A runner holds, per neuron, a
/// value and a pending sum, and interprets the steps in order:
/// `Activate` applies the logistic sigmoid to the neuron's pending sum and
/// stores the result as its value, keeping the pending sum; `Accum` adds
/// the source neuron's value, scaled by the signed weight code over 32, to
/// the destination's pending sum; `ClearSum` zeroes the pending sum.
#[derive(Clone, Copy, PartialEq, Eq, Structural, Debug)]
pub enum EvalStep {
    /// Sigmoid-activate the neuron `idx` of `layer`.
    Activate { layer: Layer, idx: u8 },
    /// Add `value(src) * weight` into the pending sum of `dst`.
    Accum { src_layer: Layer, src: u8, dst_layer: Layer, dst: u8, weight_code: u8 },
    /// Zero the pending sum of neuron `idx` of `layer`.
    ClearSum { layer: Layer, idx: u8 },
}

/// The steps one synapse contributes: its accumulation, preceded by an
/// activation of its source for the categories that re-activate sources.
pub open spec fn syn_steps(syn: Synapse, src_layer: Layer, dst_layer: Layer, activate_src: bool)
    -> Seq<EvalStep>
{
    let accum = EvalStep::Accum {
        src_layer,
        src: syn.from,
        dst_layer,
        dst: syn.to,
        weight_code: syn.weight_code,
    };
    if activate_src {
        seq![EvalStep::Activate { layer: src_layer, idx: syn.from }, accum]
    } else {
        seq![accum]
    }
}

/// The steps of one category's phase, over the first `n` synapses of its
/// list, in list order.
pub open spec fn phase_steps(
    list: Seq<Synapse>,
    src_layer: Layer,
    dst_layer: Layer,
    activate_src: bool,
    n: int,
) -> Seq<EvalStep>
    decreases n,
{
    if n <= 0 {
        Seq::empty()
    } else {
        phase_steps(list, src_layer, dst_layer, activate_src, n - 1)
            + syn_steps(list[n - 1], src_layer, dst_layer, activate_src)
    }
}

/// Activation steps for neurons `0 .. n` of a layer, in index order.
pub open spec fn activate_steps(layer: Layer, n: int) -> Seq<EvalStep>
    decreases n,
{
    if n <= 0 {
        Seq::empty()
    } else {
        activate_steps(layer, n - 1).push(EvalStep::Activate { layer, idx: (n - 1) as u8 })
    }
}

/// Pending-sum clearing steps for neurons `0 .. n` of a layer, in index
/// order.
pub open spec fn clear_steps(layer: Layer, n: int) -> Seq<EvalStep>
    decreases n,
{
    if n <= 0 {
        Seq::empty()
    } else {
        clear_steps(layer, n - 1).push(EvalStep::ClearSum { layer, idx: (n - 1) as u8 })
    }
}

/// The whole evaluation pass of a topology, as one fixed sequence of
/// steps. The phase order is part of the observable contract and must not
/// change: input-to-internal first, then self-loops, then
/// internal-to-internal, then internal-to-output, then direct
/// input-to-output; after the synapse phases all four outputs are
/// activated and every neuron's pending sum is cleared for the next tick.
/// Input sources are never re-activated (an input neuron's value is
/// written from outside); internal sources are activated once per synapse
/// that reads them, immediately before the read.
pub open spec fn eval_plan_spec(net: Network) -> Seq<EvalStep> {
    phase_steps(
        net.s_bundle.to_int_synaps@,
        Layer::Input,
        Layer::Internal,
        false,
        net.s_bundle.to_int_synaps@.len() as int,
    ) + phase_steps(
        net.s_bundle.self_synaps@,
        Layer::Internal,
        Layer::Internal,
        true,
        net.s_bundle.self_synaps@.len() as int,
    ) + phase_steps(
        net.s_bundle.int_synaps@,
        Layer::Internal,
        Layer::Internal,
        true,
        net.s_bundle.int_synaps@.len() as int,
    ) + phase_steps(
        net.s_bundle.int_out_synaps@,
        Layer::Internal,
        Layer::Output,
        true,
        net.s_bundle.int_out_synaps@.len() as int,
    ) + phase_steps(
        net.s_bundle.direct_synaps@,
        Layer::Input,
        Layer::Output,
        false,
        net.s_bundle.direct_synaps@.len() as int,
    ) + activate_steps(Layer::Output, 4)
        + clear_steps(Layer::Input, 3)
        + clear_steps(Layer::Internal, net.n_internal as int)
        + clear_steps(Layer::Output, 4)
}

/// Append one phase's steps to a plan under construction.
fn push_phase(
    out: &mut Vec<EvalStep>,
    list: &Vec<Synapse>,
    src_layer: Layer,
    dst_layer: Layer,
    activate_src: bool,
)
    ensures
        final(out)@ == old(out)@
            + phase_steps(list@, src_layer, dst_layer, activate_src, list@.len() as int),
{
    let mut j: usize = 0;
    while j < list.len()
        invariant
            j <= list@.len(),
            out@ == old(out)@ + phase_steps(list@, src_layer, dst_layer, activate_src, j as int),
        decreases list@.len() - j,
    {
        let syn = list[j];
        if activate_src {
            out.push(EvalStep::Activate { layer: src_layer, idx: syn.from });
        }
        out.push(EvalStep::Accum {
            src_layer,
            src: syn.from,
            dst_layer,
            dst: syn.to,
            weight_code: syn.weight_code,
        });
        proof {
            assert(out@ =~= old(out)@
                + phase_steps(list@, src_layer, dst_layer, activate_src, j + 1));
        }
        j = j + 1;
    }
}

/// Append a whole layer's activation steps to a plan under construction.
fn push_activate_layer(out: &mut Vec<EvalStep>, layer: Layer, n: u8)
    ensures
        final(out)@ == old(out)@ + activate_steps(layer, n as int),
{
    let mut j: u8 = 0;
    while j < n
        invariant
            j <= n,
            out@ == old(out)@ + activate_steps(layer, j as int),
        decreases n - j,
    {
        out.push(EvalStep::Activate { layer, idx: j });
        proof {
            assert(out@ =~= old(out)@ + activate_steps(layer, j + 1));
        }
        j = j + 1;
    }
}

/// Append a whole layer's pending-sum clearing steps to a plan under
/// construction.
fn push_clear_layer(out: &mut Vec<EvalStep>, layer: Layer, n: u8)
    ensures
        final(out)@ == old(out)@ + clear_steps(layer, n as int),
{
    let mut j: u8 = 0;
    while j < n
        invariant
            j <= n,
            out@ == old(out)@ + clear_steps(layer, j as int),
        decreases n - j,
    {
        out.push(EvalStep::ClearSum { layer, idx: j });
        proof {
            assert(out@ =~= old(out)@ + clear_steps(layer, j + 1));
        }
        j = j + 1;
    }
}

/// How many neurons a layer holds in a network with `n_internal` internal
/// neurons.
pub open spec fn layer_len(layer: Layer, n_internal: int) -> int {
    match layer {
        Layer::Input => 3,
        Layer::Internal => n_internal,
        Layer::Output => 4,
    }
}

/// A step only touches neurons that exist.
pub open spec fn step_in_bounds(step: EvalStep, n_internal: int) -> bool {
    match step {
        EvalStep::Activate { layer, idx } => (idx as int) < layer_len(layer, n_internal),
        EvalStep::Accum { src_layer, src, dst_layer, dst, weight_code: _ } =>
            (src as int) < layer_len(src_layer, n_internal)
            && (dst as int) < layer_len(dst_layer, n_internal),
        EvalStep::ClearSum { layer, idx } => (idx as int) < layer_len(layer, n_internal),
    }
}

/// Concatenating two step sequences whose steps stay within bounds gives
/// one whose steps do too.
proof fn lemma_concat_in_bounds(a: Seq<EvalStep>, b: Seq<EvalStep>, n_internal: int)
    requires
        forall|k: int| 0 <= k < a.len() ==> step_in_bounds(#[trigger] a[k], n_internal),
        forall|k: int| 0 <= k < b.len() ==> step_in_bounds(#[trigger] b[k], n_internal),
    ensures
        forall|k: int| 0 <= k < (a + b).len() ==> step_in_bounds(#[trigger] (a + b)[k], n_internal),
{
    assert forall|k: int| 0 <= k < (a + b).len() implies
        step_in_bounds((a + b)[k], n_internal)
    by {
        if k < a.len() {
            assert((a + b)[k] == a[k]);
        } else {
            assert((a + b)[k] == b[k - a.len()]);
        }
    }
}

/// Helper: a phase's steps stay within bounds when its synapses do.
proof fn lemma_phase_steps_in_bounds(
    list: Seq<Synapse>,
    src_layer: Layer,
    dst_layer: Layer,
    activate_src: bool,
    n: int,
    n_internal: int,
)
    requires
        n <= list.len(),
        forall|k: int| 0 <= k < n ==> ((#[trigger] list[k]).from as int)
            < layer_len(src_layer, n_internal)
            && (list[k].to as int) < layer_len(dst_layer, n_internal),
    ensures
        forall|k: int| 0 <= k < phase_steps(list, src_layer, dst_layer, activate_src, n).len()
            ==> step_in_bounds(
                #[trigger] phase_steps(list, src_layer, dst_layer, activate_src, n)[k],
                n_internal),
    decreases n,
{
    if n > 0 {
        lemma_phase_steps_in_bounds(list, src_layer, dst_layer, activate_src, n - 1, n_internal);
        let prefix = phase_steps(list, src_layer, dst_layer, activate_src, n - 1);
        let tail = syn_steps(list[n - 1], src_layer, dst_layer, activate_src);
        assert forall|k: int| 0 <= k < tail.len() implies
            step_in_bounds(#[trigger] tail[k], n_internal)
        by {
            if activate_src {
                assert(tail[0] == (EvalStep::Activate { layer: src_layer, idx: list[n - 1].from }));
                assert(tail[1] == (EvalStep::Accum {
                    src_layer,
                    src: list[n - 1].from,
                    dst_layer,
                    dst: list[n - 1].to,
                    weight_code: list[n - 1].weight_code,
                }));
            } else {
                assert(tail[0] == (EvalStep::Accum {
                    src_layer,
                    src: list[n - 1].from,
                    dst_layer,
                    dst: list[n - 1].to,
                    weight_code: list[n - 1].weight_code,
                }));
            }
        }
        lemma_concat_in_bounds(prefix, tail, n_internal);
        assert(phase_steps(list, src_layer, dst_layer, activate_src, n) == prefix + tail);
    }
}

/// Helper: a layer's activation steps stay within its bounds.
proof fn lemma_activate_steps_in_bounds(layer: Layer, n: int, n_internal: int)
    requires
        n <= layer_len(layer, n_internal),
        n <= 255,
    ensures
        forall|k: int| 0 <= k < activate_steps(layer, n).len()
            ==> step_in_bounds(#[trigger] activate_steps(layer, n)[k], n_internal),
    decreases n,
{
    if n > 0 {
        lemma_activate_steps_in_bounds(layer, n - 1, n_internal);
        let prefix = activate_steps(layer, n - 1);
        assert forall|k: int| 0 <= k < activate_steps(layer, n).len() implies
            step_in_bounds(#[trigger] activate_steps(layer, n)[k], n_internal)
        by {
            if k < prefix.len() {
                assert(activate_steps(layer, n)[k] == prefix[k]);
            } else {
                assert(activate_steps(layer, n)[k]
                    == (EvalStep::Activate { layer, idx: (n - 1) as u8 }));
            }
        }
    }
}

/// Helper: a layer's clearing steps stay within its bounds.
proof fn lemma_clear_steps_in_bounds(layer: Layer, n: int, n_internal: int)
    requires
        n <= layer_len(layer, n_internal),
        n <= 255,
    ensures
        forall|k: int| 0 <= k < clear_steps(layer, n).len()
            ==> step_in_bounds(#[trigger] clear_steps(layer, n)[k], n_internal),
    decreases n,
{
    if n > 0 {
        lemma_clear_steps_in_bounds(layer, n - 1, n_internal);
        let prefix = clear_steps(layer, n - 1);
        assert forall|k: int| 0 <= k < clear_steps(layer, n).len() implies
            step_in_bounds(#[trigger] clear_steps(layer, n)[k], n_internal)
        by {
            if k < prefix.len() {
                assert(clear_steps(layer, n)[k] == prefix[k]);
            } else {
                assert(clear_steps(layer, n)[k]
                    == (EvalStep::ClearSum { layer, idx: (n - 1) as u8 }));
            }
        }
    }
}

/// No step of a decoded topology's evaluation plan touches a neuron that
/// does not exist: decode-time validation makes a runner's array indexing
/// safe for every step.
pub proof fn lemma_eval_plan_in_bounds(net: Network, g: u128)
    requires
        decodes(net, g),
    ensures
        forall|k: int| 0 <= k < eval_plan_spec(net).len()
            ==> step_in_bounds(#[trigger] eval_plan_spec(net)[k], net.n_internal as int),
{
    let ni = net.n_internal as int;
    lemma_decoded_synapses_in_bounds(net, g);
    let p1 = phase_steps(net.s_bundle.to_int_synaps@, Layer::Input, Layer::Internal, false,
        net.s_bundle.to_int_synaps@.len() as int);
    let p2 = phase_steps(net.s_bundle.self_synaps@, Layer::Internal, Layer::Internal, true,
        net.s_bundle.self_synaps@.len() as int);
    let p3 = phase_steps(net.s_bundle.int_synaps@, Layer::Internal, Layer::Internal, true,
        net.s_bundle.int_synaps@.len() as int);
    let p4 = phase_steps(net.s_bundle.int_out_synaps@, Layer::Internal, Layer::Output, true,
        net.s_bundle.int_out_synaps@.len() as int);
    let p5 = phase_steps(net.s_bundle.direct_synaps@, Layer::Input, Layer::Output, false,
        net.s_bundle.direct_synaps@.len() as int);
    let a6 = activate_steps(Layer::Output, 4);
    let c7 = clear_steps(Layer::Input, 3);
    let c8 = clear_steps(Layer::Internal, ni);
    let c9 = clear_steps(Layer::Output, 4);
    lemma_phase_steps_in_bounds(net.s_bundle.to_int_synaps@, Layer::Input, Layer::Internal,
        false, net.s_bundle.to_int_synaps@.len() as int, ni);
    lemma_phase_steps_in_bounds(net.s_bundle.self_synaps@, Layer::Internal, Layer::Internal,
        true, net.s_bundle.self_synaps@.len() as int, ni);
    lemma_phase_steps_in_bounds(net.s_bundle.int_synaps@, Layer::Internal, Layer::Internal,
        true, net.s_bundle.int_synaps@.len() as int, ni);
    lemma_phase_steps_in_bounds(net.s_bundle.int_out_synaps@, Layer::Internal, Layer::Output,
        true, net.s_bundle.int_out_synaps@.len() as int, ni);
    lemma_phase_steps_in_bounds(net.s_bundle.direct_synaps@, Layer::Input, Layer::Output,
        false, net.s_bundle.direct_synaps@.len() as int, ni);
    lemma_activate_steps_in_bounds(Layer::Output, 4, ni);
    lemma_clear_steps_in_bounds(Layer::Input, 3, ni);
    lemma_clear_steps_in_bounds(Layer::Internal, ni, ni);
    lemma_clear_steps_in_bounds(Layer::Output, 4, ni);
    lemma_concat_in_bounds(p1, p2, ni);
    lemma_concat_in_bounds(p1 + p2, p3, ni);
    lemma_concat_in_bounds(p1 + p2 + p3, p4, ni);
    lemma_concat_in_bounds(p1 + p2 + p3 + p4, p5, ni);
    lemma_concat_in_bounds(p1 + p2 + p3 + p4 + p5, a6, ni);
    lemma_concat_in_bounds(p1 + p2 + p3 + p4 + p5 + a6, c7, ni);
    lemma_concat_in_bounds(p1 + p2 + p3 + p4 + p5 + a6 + c7, c8, ni);
    lemma_concat_in_bounds(p1 + p2 + p3 + p4 + p5 + a6 + c7 + c8, c9, ni);
}

impl Network {
    /// The evaluation pass of this topology, as the exact sequence of
    /// steps a runner must interpret in order. The sequence is a pure
    /// function of the topology, so evaluation is deterministic: the same
    /// topology always yields the same plan.
    pub fn eval_plan(&self) -> (plan: Vec<EvalStep>)
        ensures
            plan@ == eval_plan_spec(*self),
    {
        let mut plan: Vec<EvalStep> = Vec::new();
        push_phase(&mut plan, &self.s_bundle.to_int_synaps, Layer::Input, Layer::Internal, false);
        push_phase(&mut plan, &self.s_bundle.self_synaps, Layer::Internal, Layer::Internal, true);
        push_phase(&mut plan, &self.s_bundle.int_synaps, Layer::Internal, Layer::Internal, true);
        push_phase(&mut plan, &self.s_bundle.int_out_synaps, Layer::Internal, Layer::Output, true);
        push_phase(&mut plan, &self.s_bundle.direct_synaps, Layer::Input, Layer::Output, false);
        push_activate_layer(&mut plan, Layer::Output, N_OUTPUT);
        push_clear_layer(&mut plan, Layer::Input, N_INPUT);
        push_clear_layer(&mut plan, Layer::Internal, self.n_internal);
        push_clear_layer(&mut plan, Layer::Output, N_OUTPUT);
        plan
    }
}

/// Decoding is deterministic: two topologies decoded from the same genome
/// agree on the internal-neuron count and on every synapse list,
/// element for element and in the same order.
pub proof fn lemma_decode_deterministic(a: Network, b: Network, g: u128)
    requires
        decodes(a, g),
        decodes(b, g),
    ensures
        a.n_internal == b.n_internal,
        a.s_bundle.direct_synaps@ == b.s_bundle.direct_synaps@,
        a.s_bundle.int_out_synaps@ == b.s_bundle.int_out_synaps@,
        a.s_bundle.to_int_synaps@ == b.s_bundle.to_int_synaps@,
        a.s_bundle.self_synaps@ == b.s_bundle.self_synaps@,
        a.s_bundle.int_synaps@ == b.s_bundle.int_synaps@,
{
}

/// The index bounds a stored synapse of category `c` obeys in a network
/// with `n_internal` internal neurons.
pub open spec fn syn_in_bounds(c: Category, syn: Synapse, n_internal: int) -> bool {
    match c {
        Category::Direct => syn.from < 3 && syn.to < 4,
        Category::ToInternal => syn.from < 3 && syn.to < n_internal,
        Category::InternalToOutput => syn.from < n_internal && syn.to < 4,
        Category::SelfLoop => syn.from < n_internal && syn.to < n_internal,
        Category::InternalToInternal => syn.from < n_internal && syn.to < n_internal,
    }
}

/// Every synapse a decode stores is within the layer bounds of its
/// category: out-of-bound descriptors are dropped, never stored, so a
/// runner may index neuron arrays by the stored indices without checks.
pub proof fn lemma_decoded_synapses_in_bounds(net: Network, g: u128)
    requires
        decodes(net, g),
    ensures
        forall|k: int| 0 <= k < net.s_bundle.direct_synaps@.len()
            ==> syn_in_bounds(Category::Direct, #[trigger] net.s_bundle.direct_synaps@[k],
                net.n_internal as int),
        forall|k: int| 0 <= k < net.s_bundle.to_int_synaps@.len()
            ==> syn_in_bounds(Category::ToInternal, #[trigger] net.s_bundle.to_int_synaps@[k],
                net.n_internal as int),
        forall|k: int| 0 <= k < net.s_bundle.int_out_synaps@.len()
            ==> syn_in_bounds(Category::InternalToOutput, #[trigger] net.s_bundle.int_out_synaps@[k],
                net.n_internal as int),
        forall|k: int| 0 <= k < net.s_bundle.self_synaps@.len()
            ==> syn_in_bounds(Category::SelfLoop, #[trigger] net.s_bundle.self_synaps@[k],
                net.n_internal as int),
        forall|k: int| 0 <= k < net.s_bundle.int_synaps@.len()
            ==> syn_in_bounds(Category::InternalToInternal, #[trigger] net.s_bundle.int_synaps@[k],
                net.n_internal as int),
{
    lemma_category_list_in_bounds(g, Category::Direct, 7);
    lemma_category_list_in_bounds(g, Category::ToInternal, 7);
    lemma_category_list_in_bounds(g, Category::InternalToOutput, 7);
    lemma_category_list_in_bounds(g, Category::SelfLoop, 7);
    lemma_category_list_in_bounds(g, Category::InternalToInternal, 7);
}

/// Helper for [`lemma_decoded_synapses_in_bounds`], by induction over the
/// decoded slots.
proof fn lemma_category_list_in_bounds(g: u128, c: Category, n: int)
    ensures
        forall|k: int| 0 <= k < category_list(g, c, n).len()
            ==> syn_in_bounds(c, #[trigger] category_list(g, c, n)[k], n_internal_of(g) as int),
    decreases n,
{
    if n >= 1 {
        lemma_category_list_in_bounds(g, c, n - 1);
        let m = slot_mask(g, n);
        lemma_slot_field_bounds(m);
        lemma_n_internal_bound(g);
        let prefix = category_list(g, c, n - 1);
        if category_of(m) == c && slot_valid(m, n_internal_of(g)) {
            assert(category_list(g, c, n) == prefix.push(syn_of(m)));
            assert(syn_in_bounds(c, syn_of(m), n_internal_of(g) as int));
            assert forall|k: int| 0 <= k < category_list(g, c, n).len() implies
                syn_in_bounds(c, #[trigger] category_list(g, c, n)[k], n_internal_of(g) as int)
            by {
                if k < prefix.len() {
                    assert(category_list(g, c, n)[k] == prefix[k]);
                } else {
                    assert(category_list(g, c, n)[k] == syn_of(m));
                }
            }
        } else {
            assert(category_list(g, c, n) == prefix);
        }
    }
}

/// A consequence of the flag-sharing index fields: a descriptor can never
/// classify as a self-loop, because an internal source index carries bit
/// 15 and is at most 3 while an internal destination index carries bit 11
/// and is at least 4. Every decoded self-loop list is therefore empty; the
/// category keeps its place in the evaluation order all the same.
pub proof fn lemma_self_loops_never_decode(g: u128)
    ensures
        category_list(g, Category::SelfLoop, 7) =~= Seq::<Synapse>::empty(),
{
    lemma_self_loop_prefix_empty(g, 7);
}

/// Helper for [`lemma_self_loops_never_decode`], by induction over the
/// decoded slots.
proof fn lemma_self_loop_prefix_empty(g: u128, n: int)
    ensures
        category_list(g, Category::SelfLoop, n) =~= Seq::<Synapse>::empty(),
    decreases n,
{
    if n >= 1 {
        lemma_self_loop_prefix_empty(g, n - 1);
        let m = slot_mask(g, n);
        lemma_slot_field_bounds(m);
        assert(category_of(m) != Category::SelfLoop);
    }
}

/// A genome whose top four bits encode zero internal neurons decodes to
/// empty input-to-internal, self-loop, internal-to-internal and
/// internal-to-output lists: only direct input-to-output synapses can
/// survive validation.
pub proof fn lemma_no_internal_only_direct(g: u128)
    requires
        n_internal_of(g) == 0,
    ensures
        category_list(g, Category::ToInternal, 7) =~= Seq::<Synapse>::empty(),
        category_list(g, Category::SelfLoop, 7) =~= Seq::<Synapse>::empty(),
        category_list(g, Category::InternalToInternal, 7) =~= Seq::<Synapse>::empty(),
        category_list(g, Category::InternalToOutput, 7) =~= Seq::<Synapse>::empty(),
{
    lemma_internal_lists_empty(g, Category::ToInternal, 7);
    lemma_internal_lists_empty(g, Category::SelfLoop, 7);
    lemma_internal_lists_empty(g, Category::InternalToInternal, 7);
    lemma_internal_lists_empty(g, Category::InternalToOutput, 7);
}

/// Helper for [`lemma_no_internal_only_direct`]: with no internal neurons,
/// no prefix of the slots contributes a synapse of a category that touches
/// the internal layer.
proof fn lemma_internal_lists_empty(g: u128, c: Category, n: int)
    requires
        n_internal_of(g) == 0,
        c != Category::Direct,
    ensures
        category_list(g, c, n) =~= Seq::<Synapse>::empty(),
    decreases n,
{
    if n >= 1 {
        lemma_internal_lists_empty(g, c, n - 1);
    }
}

} // verus!
