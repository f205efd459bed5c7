use coinjoin_pool::builder::{assemble, build_template, InputSignature, TxInput, TxOutput};
use coinjoin_pool::types::ProtocolError;

fn input(txid: &[u8], vout: u32, amount: u64, key: &[u8]) -> TxInput {
    TxInput { txid: txid.to_vec(), vout, amount, key: key.to_vec() }
}

fn output(address: &[u8], value: u64) -> TxOutput {
    TxOutput { address: address.to_vec(), value }
}

#[test]
fn build_template_is_order_independent() {
    let ins_a = vec![
        input(&[9, 9], 0, 100_500, b"k1"),
        input(&[1, 1], 2, 100_500, b"k2"),
        input(&[1, 1], 1, 100_500, b"k3"),
    ];
    let ins_b = vec![
        input(&[1, 1], 1, 100_500, b"k3"),
        input(&[9, 9], 0, 100_500, b"k1"),
        input(&[1, 1], 2, 100_500, b"k2"),
    ];
    let outs_a = vec![output(b"addr-c", 100_000), output(b"addr-a", 100_000), output(
        b"addr-b",
        100_000,
    )];
    let outs_b = vec![output(b"addr-a", 100_000), output(b"addr-b", 100_000), output(
        b"addr-c",
        100_000,
    )];
    let t_a = build_template(ins_a, outs_a, 1_500).unwrap();
    let t_b = build_template(ins_b, outs_b, 1_500).unwrap();
    assert_eq!(t_a.encode(), t_b.encode());
}

#[test]
fn build_template_sorts_canonically() {
    let ins = vec![
        input(&[9, 9], 0, 100_500, b"k1"),
        input(&[1, 1], 2, 100_500, b"k2"),
        input(&[1, 1], 1, 100_500, b"k3"),
    ];
    let outs = vec![output(b"zz", 100_000), output(b"aa", 100_000), output(b"mm", 100_000)];
    let t = build_template(ins, outs, 1_500).unwrap();
    // Inputs by (txid, vout) ascending.
    assert_eq!(t.inputs[0].txid, vec![1, 1]);
    assert_eq!(t.inputs[0].vout, 1);
    assert_eq!(t.inputs[1].txid, vec![1, 1]);
    assert_eq!(t.inputs[1].vout, 2);
    assert_eq!(t.inputs[2].txid, vec![9, 9]);
    // Outputs by address bytes ascending.
    assert_eq!(t.outputs[0].address, b"aa".to_vec());
    assert_eq!(t.outputs[1].address, b"mm".to_vec());
    assert_eq!(t.outputs[2].address, b"zz".to_vec());
    assert_eq!(t.fee, 1_500);
}

#[test]
fn build_template_rejects_excess_as_balance_error() {
    // Inputs exceed outputs plus fee by 2,500: rejected, never silently
    // corrected.
    let ins = vec![
        input(&[1], 0, 101_000, b"k1"),
        input(&[2], 0, 101_500, b"k2"),
        input(&[3], 0, 102_000, b"k3"),
    ];
    let outs = vec![output(b"a", 100_000), output(b"b", 100_000), output(b"c", 100_000)];
    let r = build_template(ins, outs, 1_000);
    assert!(matches!(r, Err(ProtocolError::BalanceError)));
}

#[test]
fn build_template_accepts_exact_balance() {
    let ins = vec![input(&[1], 0, 100_500, b"k1"), input(&[2], 0, 100_500, b"k2")];
    let outs = vec![output(b"a", 100_000), output(b"b", 100_000)];
    let t = build_template(ins, outs, 1_000).unwrap();
    let in_sum: u64 = t.inputs.iter().map(|i| i.amount).sum();
    let out_sum: u64 = t.outputs.iter().map(|o| o.value).sum();
    assert_eq!(in_sum, out_sum + t.fee as u64);
}

#[test]
fn encode_is_deterministic() {
    let ins = vec![input(&[1], 0, 100_500, b"k1"), input(&[2], 0, 100_500, b"k2")];
    let outs = vec![output(b"a", 100_000), output(b"b", 100_000)];
    let t = build_template(ins, outs, 1_000).unwrap();
    assert_eq!(t.encode(), t.encode());
}

fn balanced_template() -> coinjoin_pool::builder::UnsignedTransaction {
    let ins = vec![input(&[1], 0, 100_500, b"k1"), input(&[2], 0, 100_500, b"k2")];
    let outs = vec![output(b"a", 100_000), output(b"b", 100_000)];
    build_template(ins, outs, 1_000).unwrap()
}

fn sig_for(t: &coinjoin_pool::builder::UnsignedTransaction, i: usize) -> InputSignature {
    InputSignature {
        input_index: i,
        key: t.inputs[i].key.clone(),
        digest: t.encode(),
        material: vec![0xde, 0xad],
    }
}

#[test]
fn assemble_fails_with_missing_signature_when_one_short() {
    let t = balanced_template();
    let sigs = vec![sig_for(&t, 0)];
    let r = assemble(t, &sigs);
    assert!(matches!(r, Err(ProtocolError::MissingSignature)));
}

#[test]
fn assemble_fails_with_mismatch_on_substituted_signature() {
    let t = balanced_template();
    // The signature for input 0 is presented as input 1's: its key proves
    // input 0's owner, not input 1's.
    let mut wrong = sig_for(&t, 0);
    wrong.input_index = 1;
    let sigs = vec![sig_for(&t, 0), wrong];
    let r = assemble(t, &sigs);
    assert!(matches!(r, Err(ProtocolError::SignatureMismatch)));
}

#[test]
fn assemble_attaches_one_witness_per_input_in_order() {
    let t = balanced_template();
    let sigs = vec![sig_for(&t, 1), sig_for(&t, 0)];
    let st = assemble(t, &sigs).unwrap();
    assert_eq!(st.witnesses.len(), 2);
    assert_eq!(st.witnesses[0].input_index, 0);
    assert_eq!(st.witnesses[1].input_index, 1);
    assert_eq!(st.witnesses[0].key, st.template.inputs[0].key);
    assert_eq!(st.witnesses[1].key, st.template.inputs[1].key);
}

#[test]
fn assemble_rejects_wrong_digest() {
    let t = balanced_template();
    let mut bad = sig_for(&t, 0);
    bad.digest = vec![0, 1, 2];
    let sigs = vec![bad, sig_for(&t, 1)];
    let r = assemble(t, &sigs);
    assert!(matches!(r, Err(ProtocolError::SignatureMismatch)));
}
