//! The controller: forward pass values, mutation invariants, deep copies.

use ava::config::{NUM_HIDDEN_NODES, NUM_INPUT_NODES, NUM_OUTPUT_NODES, SCALE};
use ava::net::{standard_widths, Layer, Net};

/// A network of the standard topology with every parameter zero.
fn zeroed_net() -> Net {
    let mut layers = Vec::new();
    let widths = vec![NUM_INPUT_NODES, NUM_HIDDEN_NODES, NUM_OUTPUT_NODES];
    for l in 0..widths.len() - 1 {
        let weights = vec![vec![0i64; widths[l]]; widths[l + 1]];
        let biases = vec![0i64; widths[l + 1]];
        layers.push(Layer { weights, biases });
    }
    Net { widths, layers }
}

fn all_params(net: &Net) -> Vec<i64> {
    let mut out = Vec::new();
    for layer in &net.layers {
        for row in &layer.weights {
            out.extend_from_slice(row);
        }
        out.extend_from_slice(&layer.biases);
    }
    out
}

#[test]
fn predict_returns_every_layer() {
    let net = zeroed_net();
    let acts = net.predict(&vec![0, 0, 0]);
    assert_eq!(acts.len(), 3);
    assert_eq!(acts[0].len(), NUM_INPUT_NODES);
    assert_eq!(acts[1].len(), NUM_HIDDEN_NODES);
    assert_eq!(acts[2].len(), NUM_OUTPUT_NODES);
}

#[test]
fn zeroed_net_outputs_the_ramp_midpoint() {
    // Every pre-activation is 0, and the ramp maps 0 to (0 + 2000) / 4.
    let net = zeroed_net();
    let acts = net.predict(&vec![0, 0, 0]);
    for v in &acts[1] {
        assert_eq!(*v, 500);
    }
    for v in &acts[2] {
        assert_eq!(*v, 500);
    }
}

#[test]
fn saturated_biases_pin_the_outputs() {
    let mut net = zeroed_net();
    // A bias at +2 saturates the node to SCALE; at -2, to zero.
    net.layers[0].biases = vec![2 * SCALE; NUM_HIDDEN_NODES];
    net.layers[1].biases = vec![-2 * SCALE; NUM_OUTPUT_NODES];
    let acts = net.predict(&vec![1000, 1000, 1000]);
    for v in &acts[1] {
        assert_eq!(*v, SCALE);
    }
    // Output nodes see 8 saturated inputs through zero weights plus a
    // bias of -2000: still floor of the ramp.
    for v in &acts[2] {
        assert_eq!(*v, 0);
    }
}

#[test]
fn single_weight_drives_the_output() {
    let mut net = zeroed_net();
    // Hidden node 0 reads input 0 with weight 1.0; with input 1.0 its
    // pre-activation is 1000, so the ramp gives (1000 + 2000) / 4 = 750.
    net.layers[0].weights[0][0] = 1000;
    let acts = net.predict(&vec![1000, 0, 0]);
    assert_eq!(acts[1][0], 750);
    assert_eq!(acts[1][1], 500);
}

#[test]
fn mutation_with_zero_rate_changes_nothing() {
    let mut net = Net::new(standard_widths());
    let before = all_params(&net);
    net.mutate_with(0, 100);
    assert_eq!(before, all_params(&net));
}

#[test]
fn mutation_never_changes_topology() {
    let mut net = Net::new(standard_widths());
    for _ in 0..50 {
        net.mutate();
        assert_eq!(net.widths, vec![NUM_INPUT_NODES, NUM_HIDDEN_NODES, NUM_OUTPUT_NODES]);
        assert_eq!(net.layers.len(), 2);
        assert_eq!(net.layers[0].weights.len(), NUM_HIDDEN_NODES);
        assert_eq!(net.layers[0].biases.len(), NUM_HIDDEN_NODES);
        for row in &net.layers[0].weights {
            assert_eq!(row.len(), NUM_INPUT_NODES);
        }
        assert_eq!(net.layers[1].weights.len(), NUM_OUTPUT_NODES);
        assert_eq!(net.layers[1].biases.len(), NUM_OUTPUT_NODES);
        for row in &net.layers[1].weights {
            assert_eq!(row.len(), NUM_HIDDEN_NODES);
        }
    }
}

#[test]
fn repeated_mutation_eventually_changes_some_parameter() {
    // With 68 parameters at a 10% rate, fifty passes leave the chance of
    // no displacement at all far below any practical concern.
    let mut net = Net::new(standard_widths());
    let before = all_params(&net);
    let mut changed = false;
    for _ in 0..50 {
        net.mutate();
        if all_params(&net) != before {
            changed = true;
            break;
        }
    }
    assert!(changed);
}

#[test]
fn duplicate_is_deep_and_equal() {
    let mut net = Net::new(standard_widths());
    let copy = net.duplicate();
    assert_eq!(all_params(&net), all_params(&copy));
    // Mutating the original must not touch the copy.
    let copy_before = all_params(&copy);
    net.layers[0].weights[0][0] += 1;
    assert_eq!(copy_before, all_params(&copy));
}
