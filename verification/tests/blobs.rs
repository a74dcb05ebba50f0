use blobs::blob::{blob_color, find_window, sense_window, sort_markers, MarkerPoint, OldestBlob};
use blobs::food::Chem;
use blobs::genes::Genes;
use blobs::network::{EvalStep, Layer, Network};

const EPSILON: f32 = 0.0001;

fn sigmoid(s: f32) -> f32 {
    1. / (1. + (-s).exp())
}

fn layer_index(layer: &Layer) -> usize {
    match layer {
        Layer::Input => 0,
        Layer::Internal => 1,
        Layer::Output => 2,
    }
}

/// A plain floating-point runner for the evaluation plan: per neuron a
/// value (`weights`) and a pending sum (`sums`), indexed by layer.
fn run_plan(
    plan: &[EvalStep],
    weights: &mut [Vec<f32>; 3],
    sums: &mut [Vec<f32>; 3],
) -> (f32, f32, bool, bool) {
    for step in plan {
        match step {
            EvalStep::Activate { layer, idx } => {
                let l = layer_index(layer);
                let i = *idx as usize;
                weights[l][i] = sigmoid(sums[l][i]);
            }
            EvalStep::Accum { src_layer, src, dst_layer, dst, weight_code } => {
                let w = (*weight_code as i8) as f32 / 32.;
                let v = weights[layer_index(src_layer)][*src as usize];
                sums[layer_index(dst_layer)][*dst as usize] += v * w;
            }
            EvalStep::ClearSum { layer, idx } => {
                sums[layer_index(layer)][*idx as usize] = 0.;
            }
        }
    }
    (
        2. * weights[2][0] - 1.,
        2. * weights[2][1] - 1.,
        2. * weights[2][2] - 1. > 0.7,
        2. * weights[2][3] - 1. > 0.7,
    )
}

fn fresh_state(n_internal: usize) -> ([Vec<f32>; 3], [Vec<f32>; 3]) {
    let weights = [vec![0.; 3], vec![0.5; n_internal], vec![0.; 4]];
    let sums = [vec![0.; 3], vec![0.; n_internal], vec![0.; 4]];
    (weights, sums)
}

#[test]
fn convert_gene() {
    let test_net = Network::new(Genes { gene: 297748235675921506640778121573503598592u128 });

    let plan = test_net.eval_plan();
    let (mut weights, mut sums) = fresh_state(test_net.n_internal as usize);
    let out = run_plan(&plan, &mut weights, &mut sums);
    assert_eq!(out, (0.0, -0.7615942, false, false));

    assert_eq!(test_net.s_bundle.int_out_synaps.len(), 1);
    assert_eq!(test_net.n_internal, 14);
    let to_int_w = (test_net.s_bundle.to_int_synaps[0].weight_code as i8) as f32 / 32.;
    let int_out_w = (test_net.s_bundle.int_out_synaps[0].weight_code as i8) as f32 / 32.;
    assert!(to_int_w.abs() - 3.34375 <= EPSILON);
    assert!(int_out_w.abs() - 4.0 <= EPSILON);
}

#[test]
fn find_window_test() {
    let blob_x = 2;
    let chems = vec![
        MarkerPoint { x: 0, y: 1 },
        MarkerPoint { x: 1, y: 1 },
        MarkerPoint { x: 2, y: 1 },
        MarkerPoint { x: 3, y: 3 },
        MarkerPoint { x: 4, y: 4 },
    ];
    let (l, r, _) = find_window(blob_x, 1, &chems);

    assert_eq!(l, 1);
    assert_eq!(r, 3);
}

#[test]
fn decode_is_deterministic() {
    let genes = Genes { gene: 297748235675921506640778121573503598592u128 };
    let a = Network::new(genes);
    let b = Network::new(genes);
    assert_eq!(a.n_internal, b.n_internal);
    assert_eq!(a.s_bundle, b.s_bundle);
    assert_eq!(a.eval_plan(), b.eval_plan());
}

#[test]
fn no_internal_neurons_only_direct_survives() {
    // The same descriptors as the genome in convert_gene, but with the
    // top four bits encoding zero internal neurons: every category that
    // touches the internal layer must come out empty.
    let gene = 297748235675921506640778121573503598592u128 & !(0xfu128 << 124);
    let net = Network::new(Genes { gene });
    assert_eq!(net.n_internal, 0);
    assert!(net.s_bundle.to_int_synaps.is_empty());
    assert!(net.s_bundle.self_synaps.is_empty());
    assert!(net.s_bundle.int_synaps.is_empty());
    assert!(net.s_bundle.int_out_synaps.is_empty());
    // All-zero descriptors are valid direct synapses, so those survive.
    assert!(!net.s_bundle.direct_synaps.is_empty());
}

#[test]
fn eval_twice_same_output() {
    // Evaluation is a pure function of the current neuron state and the
    // topology: run twice in a row, without touching the input values in
    // between, it reports the same outputs both times.
    let net = Network::new(Genes { gene: 297748235675921506640778121573503598592u128 });
    let plan = net.eval_plan();
    let (mut weights, mut sums) = fresh_state(net.n_internal as usize);
    weights[0][0] = 0.25;
    weights[0][1] = 0.75;
    weights[0][2] = 0.5;
    let first = run_plan(&plan, &mut weights, &mut sums);
    let second = run_plan(&plan, &mut weights, &mut sums);
    assert_eq!(first, second);
}

#[test]
fn whole_genome_mutation_rate() {
    let parent = Genes { gene: 297748235675921506640778121573503598592u128 };
    let trials = 1_000_000u32;
    let mut changed = 0u32;
    for _ in 0..trials {
        let child = parent.replicate_whole();
        if child.gene != parent.gene {
            changed += 1;
            // A mutation flips exactly one bit, somewhere in the 128.
            let diff = child.gene ^ parent.gene;
            assert_eq!(diff.count_ones(), 1);
        }
    }
    // The mutation odds are one in a thousand; a millionfold repetition
    // stays close to a thousand changes (the bound is over six standard
    // deviations wide).
    assert!(changed > 800, "saw {} mutations", changed);
    assert!(changed < 1200, "saw {} mutations", changed);
}

#[test]
fn region_mutation_stays_in_its_region() {
    let parent = Genes { gene: 0x0123_4567_89ab_cdef_0123_4567_89ab_cdefu128 };
    let mut mutated_regions = 0u32;
    for _ in 0..100_000 {
        let child = parent.replicate();
        let diff = parent.gene ^ child.gene;
        for region in 0..8u32 {
            let region_diff = (diff >> (16 * region)) & 0xffff;
            // Per region, at most one bit may flip.
            assert!(region_diff.count_ones() <= 1);
            if region_diff != 0 {
                mutated_regions += 1;
            }
        }
    }
    // Eight regions, each with one-in-a-thousand odds per replication:
    // about eight hundred mutated regions over a hundred thousand runs.
    assert!(mutated_regions > 600, "saw {} mutated regions", mutated_regions);
    assert!(mutated_regions < 1100, "saw {} mutated regions", mutated_regions);
}

#[test]
fn random_default_genomes_differ() {
    // Seeding draws fresh random genomes; 128 bits make a collision over
    // a few draws implausible, and a constant generator would fail here.
    let a = Genes::default();
    let b = Genes::default();
    let c = Genes::default();
    assert!(a.gene != b.gene || b.gene != c.gene);
}

#[test]
fn sort_markers_sorts_and_keeps_markers() {
    let mut v = vec![
        MarkerPoint { x: 5, y: 0 },
        MarkerPoint { x: -3, y: 1 },
        MarkerPoint { x: 5, y: 2 },
        MarkerPoint { x: 0, y: 3 },
        MarkerPoint { x: -7, y: 4 },
    ];
    sort_markers(&mut v);
    let xs: Vec<i32> = v.iter().map(|p| p.x).collect();
    assert_eq!(xs, vec![-7, -3, 0, 5, 5]);
    // Both markers with x == 5 are still present.
    let mut ys: Vec<i32> = v.iter().filter(|p| p.x == 5).map(|p| p.y).collect();
    ys.sort();
    assert_eq!(ys, vec![0, 2]);
}

#[test]
fn sort_markers_empty_and_single() {
    let mut empty: Vec<MarkerPoint> = Vec::new();
    sort_markers(&mut empty);
    assert!(empty.is_empty());

    let mut single = vec![MarkerPoint { x: 9, y: 9 }];
    sort_markers(&mut single);
    assert_eq!(single.len(), 1);
    assert_eq!(single[0].x, 9);
}

#[test]
fn window_needs_two_markers() {
    let none: Vec<MarkerPoint> = Vec::new();
    assert_eq!(find_window(0, 10, &none), (0, 0, false));
    let one = vec![MarkerPoint { x: 0, y: 0 }];
    assert_eq!(find_window(0, 10, &one), (0, 0, false));
}

#[test]
fn window_misses_far_query() {
    let chems = vec![
        MarkerPoint { x: 0, y: 0 },
        MarkerPoint { x: 1, y: 0 },
        MarkerPoint { x: 2, y: 0 },
    ];
    assert_eq!(find_window(100, 3, &chems), (0, 0, false));
    assert_eq!(find_window(-100, 3, &chems), (0, 0, false));
}

#[test]
fn window_covers_all_markers() {
    let chems = vec![
        MarkerPoint { x: -2, y: 0 },
        MarkerPoint { x: 0, y: 0 },
        MarkerPoint { x: 2, y: 0 },
    ];
    // The limit is squared: half-width nine covers x in [-9, 9].
    assert_eq!(find_window(0, 3, &chems), (0, 2, true));
}

#[test]
fn window_limit_is_squared() {
    let chems = vec![
        MarkerPoint { x: 0, y: 0 },
        MarkerPoint { x: 3, y: 0 },
        MarkerPoint { x: 8, y: 0 },
        MarkerPoint { x: 20, y: 0 },
    ];
    // Limit 3 prunes by |x - qx| <= 9, not <= 3.
    assert_eq!(find_window(0, 3, &chems), (0, 2, true));
}

#[test]
fn sense_window_sums_near_markers_excluding_right_edge() {
    let chems = vec![
        MarkerPoint { x: 0, y: 0 },
        MarkerPoint { x: 1, y: 1 },
        MarkerPoint { x: 2, y: 2 },
        MarkerPoint { x: 3, y: 3 },
        MarkerPoint { x: 4, y: 4 },
    ];
    // Indices 1 and 2 are summed (marker 3, the window's right edge, is
    // excluded by the consuming convention); both pass the distance
    // check: (1,1) at squared distance 2 and (2,2) at 4.
    let (sx, sy) = sense_window(&chems, 1, 3, 2, 0, 5);
    assert_eq!(sx, 1);
    assert_eq!(sy, -3);
}

#[test]
fn sense_window_distance_check_filters() {
    let chems = vec![
        MarkerPoint { x: 0, y: 0 },
        MarkerPoint { x: 0, y: 100 },
        MarkerPoint { x: 1, y: 0 },
    ];
    // The far marker is inside the index range but fails the exact
    // squared-distance check.
    let (sx, sy) = sense_window(&chems, 0, 3, 1, 0, 25);
    assert_eq!(sx, 1 + 0);
    assert_eq!(sy, 0 + 0);
}

#[test]
fn sense_window_empty_range() {
    let chems = vec![MarkerPoint { x: 0, y: 0 }, MarkerPoint { x: 1, y: 1 }];
    assert_eq!(sense_window(&chems, 1, 1, 0, 0, 1000), (0, 0));
}

#[test]
fn blob_color_reads_genome_bytes() {
    let gene: u128 = 0xabcdu128 << 112;
    assert_eq!(blob_color(gene), (0xab, 0xcd, 0x40));
    assert_eq!(blob_color(0), (0, 0, 0));
}

#[test]
fn chem_dissolves_at_zero() {
    let mut chem = Chem { dissolve_life: 2 };
    assert!(!chem.dissolve_step());
    assert_eq!(chem.dissolve_life, 1);
    assert!(!chem.dissolve_step());
    assert_eq!(chem.dissolve_life, 0);
    assert!(chem.dissolve_step());
    assert_eq!(chem.dissolve_life, 0);
}

#[test]
fn oldest_blob_tracks_highest_generation() {
    let mut oldest = OldestBlob::default();
    assert_eq!(oldest.0, (0u128, 0u16));
    assert!(oldest.observe(7, 1));
    assert_eq!(oldest.0, (7u128, 1u16));
    // An equal generation does not displace the record.
    assert!(!oldest.observe(9, 1));
    assert_eq!(oldest.0, (7u128, 1u16));
    assert!(oldest.observe(9, 4));
    assert_eq!(oldest.0, (9u128, 4u16));
    assert!(!oldest.observe(11, 3));
    assert_eq!(oldest.0, (9u128, 4u16));
}

#[test]
fn eval_plan_order_matches_decode_order() {
    // One ToInternal descriptor (slot 1) and one InternalToOutput
    // descriptor (slot 2), with fourteen internal neurons.
    let net = Network::new(Genes { gene: 297748235675921506640778121573503598592u128 });
    let plan = net.eval_plan();
    // The plan opens with the input-to-internal accumulation.
    match &plan[0] {
        EvalStep::Accum { src_layer, dst_layer, .. } => {
            assert_eq!(layer_index(src_layer), 0);
            assert_eq!(layer_index(dst_layer), 1);
        }
        _ => panic!("plan must open with the input-to-internal phase"),
    }
    // Then the internal-to-output phase: an activation of the source
    // right before its accumulation.
    match (&plan[1], &plan[2]) {
        (
            EvalStep::Activate { layer, idx },
            EvalStep::Accum { src_layer, src, dst_layer, .. },
        ) => {
            assert_eq!(layer_index(layer), 1);
            assert_eq!(layer_index(src_layer), 1);
            assert_eq!(idx, src);
            assert_eq!(layer_index(dst_layer), 2);
        }
        _ => panic!("internal sources are activated immediately before their read"),
    }
    // The plan closes with the output activations and the pending-sum
    // clears of all three layers: 4 + 3 + 14 + 4 steps after the synapse
    // phases (five direct synapses of weight zero included).
    assert_eq!(plan.len(), 1 + 2 + 5 + 4 + 3 + 14 + 4);
}

#[test]
fn full_genome_decodes_every_slot() {
    // All-ones genome: fifteen internal neurons, and every descriptor an
    // internal-to-internal connection from index 3 to index 7.
    let net = Network::new(Genes { gene: u128::MAX });
    assert_eq!(net.n_internal, 15);
    assert_eq!(net.s_bundle.int_synaps.len(), 7);
    assert!(net.s_bundle.direct_synaps.is_empty());
    assert!(net.s_bundle.to_int_synaps.is_empty());
    assert!(net.s_bundle.self_synaps.is_empty());
    assert!(net.s_bundle.int_out_synaps.is_empty());
    let syn = &net.s_bundle.int_synaps[0];
    assert_eq!(syn.from, 3);
    assert_eq!(syn.to, 7);
    assert_eq!(syn.weight_code, 0xff);
    // Seven activate-accumulate pairs, four output activations, and a
    // pending-sum clear for each of 3 + 15 + 4 neurons.
    let plan = net.eval_plan();
    assert_eq!(plan.len(), 14 + 4 + 3 + 15 + 4);
}

#[test]
fn sense_window_extreme_coordinates() {
    let chems = vec![
        MarkerPoint { x: i32::MIN, y: i32::MIN },
        MarkerPoint { x: i32::MAX, y: i32::MAX },
    ];
    let (sx, sy) = sense_window(&chems, 0, 2, i32::MAX, i32::MAX, i64::MAX);
    // The far corner fails even the widest distance check; the near one
    // contributes zero delta.
    assert_eq!((sx, sy), (0, 0));
}

#[test]
fn self_loops_never_survive_decode() {
    // An internal source index is at most 3, an internal destination
    // index at least 4, so no descriptor classifies as a self-loop.
    let genomes = [
        0u128,
        u128::MAX,
        297748235675921506640778121573503598592u128,
        0x8800u128 << 96,
        0xffffu128 << 96 | (0xfu128 << 124),
    ];
    for gene in genomes {
        let net = Network::new(Genes { gene });
        assert!(net.s_bundle.self_synaps.is_empty());
    }
}
