use nitro_attestation::circuit::{guest_output, PlonkRow, StandardPlonk};

fn gate(r: &PlonkRow, instance: i128) -> i128 {
    let (a, b, c) = (r.a as i128, r.b as i128, r.c as i128);
    r.q_a as i128 * a + r.q_b as i128 * b + r.q_c as i128 * c + r.q_ab as i128 * a * b
        + r.constant as i128
        + instance
}

fn instance_cell(public: &[u32], row: usize) -> i128 {
    public.get(row).map(|v| *v as i128).unwrap_or(0)
}

#[test]
fn table_satisfies_gate_for_sampled_witnesses() {
    for x in [0u32, 1, 3, 0xdead_beef, u32::MAX] {
        let circuit = StandardPlonk::rand(x);
        let table = circuit.synthesize();
        let public = &circuit.instances()[0];
        assert_eq!(table.len(), 5);
        for (i, row) in table.iter().enumerate() {
            assert_eq!(gate(row, instance_cell(public, i)), 0);
        }
        assert_eq!(table[3].b, table[2].a);
        assert_eq!(table[4].c, table[2].a);
    }
}

#[test]
fn second_row_uses_selectors_one_to_five() {
    let row = StandardPlonk::rand(7).synthesize()[1];
    assert_eq!((row.q_a, row.q_b, row.q_c, row.q_ab, row.constant), (1, 2, 3, 4, 5));
    assert_eq!(row.a, -5);
}

#[test]
fn instances_hold_the_witness() {
    let c = StandardPlonk::rand(42);
    assert_eq!(c.instances(), vec![vec![42u32]]);
    assert_eq!(StandardPlonk::num_instance(), vec![1usize]);
    assert_eq!(c.without_witnesses(), StandardPlonk(0));
}

#[test]
fn guest_output_of_three_is_thirty_five() {
    assert_eq!(guest_output(3), 35);
    assert_eq!(guest_output(0), 5);
    assert_eq!(guest_output(10), 1015);
}

#[test]
fn wrong_public_input_fails_row_zero() {
    let table = StandardPlonk::rand(3).synthesize();
    assert_eq!(gate(&table[0], 3), 0);
    assert_ne!(gate(&table[0], 4), 0);
    assert_ne!(gate(&table[0], 0), 0);
    assert_ne!(gate(&table[1], 1), 0);
}
