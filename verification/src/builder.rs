//! Deterministic construction of the shared transaction template.
//!
//! Every participant must derive the same template from the same
//! commitment set without further coordination, so the builder sorts
//! inputs by (transaction id, output index) ascending and outputs by
//! destination address bytes ascending, checks that input and output sums
//! balance against the fee exactly, and emits a canonical byte encoding
//! that all peers sign.

use vstd::prelude::*;
use vstd::relations::{sorted_by, total_ordering};
use vstd::seq_lib::lemma_sorted_unique;
use crate::order::{
    bytes_eq, bytes_le_exec, bytes_ord, lemma_bytes_ord_total, lemma_lex_pair_total,
    lemma_u32_ord_total, lemma_u64_ord_total, lex_pair, u32_ord, u64_ord,
};
use crate::types::{Commitment, CommitmentModel, ProtocolError};

verus! {

/// One input of the shared transaction: the outpoint it spends, its
/// amount, and the key its signature must verify against.
#[derive(Clone, Debug)]
pub struct TxInput {
    pub txid: Vec<u8>,
    pub vout: u32,
    pub amount: u64,
    pub key: Vec<u8>,
}

/// Mathematical view of a [`TxInput`].
#[verifier::ext_equal]
pub struct InputModel {
    pub txid: Seq<u8>,
    pub vout: u32,
    pub amount: u64,
    pub key: Seq<u8>,
}

impl View for TxInput {
    type V = InputModel;

    open spec fn view(&self) -> InputModel {
        InputModel { txid: self.txid@, vout: self.vout, amount: self.amount, key: self.key@ }
    }
}

/// One output of the shared transaction.
#[derive(Clone, Debug)]
pub struct TxOutput {
    pub address: Vec<u8>,
    pub value: u64,
}

/// Mathematical view of a [`TxOutput`].
#[verifier::ext_equal]
pub struct OutputModel {
    pub address: Seq<u8>,
    pub value: u64,
}

impl View for TxOutput {
    type V = OutputModel;

    open spec fn view(&self) -> OutputModel {
        OutputModel { address: self.address@, value: self.value }
    }
}

/// The unsigned transaction template every participant signs an identical
/// copy of.
#[derive(Debug)]
pub struct UnsignedTransaction {
    pub inputs: Vec<TxInput>,
    pub outputs: Vec<TxOutput>,
    pub fee: u32,
}

/// Mathematical view of an [`UnsignedTransaction`].
#[verifier::ext_equal]
pub struct TemplateModel {
    pub inputs: Seq<InputModel>,
    pub outputs: Seq<OutputModel>,
    pub fee: u32,
}

impl View for UnsignedTransaction {
    type V = TemplateModel;

    open spec fn view(&self) -> TemplateModel {
        TemplateModel {
            inputs: self.inputs@.map_values(|x: TxInput| x@),
            outputs: self.outputs@.map_values(|x: TxOutput| x@),
            fee: self.fee,
        }
    }
}

/// The views of a sequence of inputs.
pub open spec fn input_views(s: Seq<TxInput>) -> Seq<InputModel> {
    s.map_values(|x: TxInput| x@)
}

/// The views of a sequence of outputs.
pub open spec fn output_views(s: Seq<TxOutput>) -> Seq<OutputModel> {
    s.map_values(|x: TxOutput| x@)
}

// ---------------------------------------------------------------------------
// Canonical orders
// ---------------------------------------------------------------------------

/// The sort key of an input: transaction id first, then output index;
/// amount and key only break ties between otherwise identical inputs, so
/// that the order is total on whole values.
pub open spec fn input_sort_key(a: InputModel) -> (Seq<u8>, (u32, (u64, Seq<u8>))) {
    (a.txid, (a.vout, (a.amount, a.key)))
}

/// Order on input sort keys.
pub open spec fn input_key_ord() -> spec_fn(
    (Seq<u8>, (u32, (u64, Seq<u8>))),
    (Seq<u8>, (u32, (u64, Seq<u8>))),
) -> bool {
    lex_pair(bytes_ord(), lex_pair(u32_ord(), lex_pair(u64_ord(), bytes_ord())))
}

/// The canonical total order on inputs: (transaction id, output index)
/// ascending.
pub open spec fn input_ord() -> spec_fn(InputModel, InputModel) -> bool {
    |a: InputModel, b: InputModel| input_key_ord()(input_sort_key(a), input_sort_key(b))
}

pub proof fn lemma_input_ord_total()
    ensures
        total_ordering(input_ord()),
{
    lemma_bytes_ord_total();
    lemma_u32_ord_total();
    lemma_u64_ord_total();
    lemma_lex_pair_total(u64_ord(), bytes_ord());
    lemma_lex_pair_total(u32_ord(), lex_pair(u64_ord(), bytes_ord()));
    lemma_lex_pair_total(bytes_ord(), lex_pair(u32_ord(), lex_pair(u64_ord(), bytes_ord())));
    let t = input_key_ord();
    let r = input_ord();
    assert forall|a: InputModel| #[trigger] r(a, a) by {
        assert(t(input_sort_key(a), input_sort_key(a)));
    }
    assert forall|a: InputModel, b: InputModel|
        #[trigger] r(a, b) && #[trigger] r(b, a) implies a == b by {
        assert(t(input_sort_key(a), input_sort_key(b)) && t(input_sort_key(b), input_sort_key(a)));
        assert(input_sort_key(a) == input_sort_key(b));
        assert(a =~= b);
    }
    assert forall|a: InputModel, b: InputModel, c: InputModel|
        #[trigger] r(a, b) && #[trigger] r(b, c) implies r(a, c) by {
        assert(t(input_sort_key(a), input_sort_key(b)) && t(input_sort_key(b), input_sort_key(c)));
        assert(t(input_sort_key(a), input_sort_key(c)));
    }
    assert forall|a: InputModel, b: InputModel| #[trigger] r(a, b) || #[trigger] r(b, a) by {
        assert(t(input_sort_key(a), input_sort_key(b)) || t(
            input_sort_key(b),
            input_sort_key(a),
        ));
    }
}

/// The sort key of an output: destination address bytes first; the value
/// only breaks ties, so that the order is total on whole values.
pub open spec fn output_sort_key(a: OutputModel) -> (Seq<u8>, u64) {
    (a.address, a.value)
}

/// The canonical total order on outputs: destination address bytes
/// ascending.
pub open spec fn output_ord() -> spec_fn(OutputModel, OutputModel) -> bool {
    |a: OutputModel, b: OutputModel| lex_pair(bytes_ord(), u64_ord())(
        output_sort_key(a),
        output_sort_key(b),
    )
}

pub proof fn lemma_output_ord_total()
    ensures
        total_ordering(output_ord()),
{
    lemma_bytes_ord_total();
    lemma_u64_ord_total();
    lemma_lex_pair_total(bytes_ord(), u64_ord());
    let t = lex_pair(bytes_ord(), u64_ord());
    let r = output_ord();
    assert forall|a: OutputModel| #[trigger] r(a, a) by {
        assert(t(output_sort_key(a), output_sort_key(a)));
    }
    assert forall|a: OutputModel, b: OutputModel|
        #[trigger] r(a, b) && #[trigger] r(b, a) implies a == b by {
        assert(t(output_sort_key(a), output_sort_key(b)) && t(
            output_sort_key(b),
            output_sort_key(a),
        ));
        assert(output_sort_key(a) == output_sort_key(b));
        assert(a =~= b);
    }
    assert forall|a: OutputModel, b: OutputModel, c: OutputModel|
        #[trigger] r(a, b) && #[trigger] r(b, c) implies r(a, c) by {
        assert(t(output_sort_key(a), output_sort_key(b)) && t(
            output_sort_key(b),
            output_sort_key(c),
        ));
        assert(t(output_sort_key(a), output_sort_key(c)));
    }
    assert forall|a: OutputModel, b: OutputModel| #[trigger] r(a, b) || #[trigger] r(b, a) by {
        assert(t(output_sort_key(a), output_sort_key(b)) || t(
            output_sort_key(b),
            output_sort_key(a),
        ));
    }
}

/// The canonical input sequence: any ordering of the same inputs sorts to
/// this one.
pub open spec fn canon_inputs(s: Seq<InputModel>) -> Seq<InputModel> {
    s.sort_by(input_ord())
}

/// The canonical output sequence.
pub open spec fn canon_outputs(s: Seq<OutputModel>) -> Seq<OutputModel> {
    s.sort_by(output_ord())
}

// ---------------------------------------------------------------------------
// Sums
// ---------------------------------------------------------------------------

/// Sum of a sequence under a weight function.
pub open spec fn seq_sum<A>(s: Seq<A>, w: spec_fn(A) -> int) -> int
    decreases s.len(),
{
    if s.len() == 0 {
        0
    } else {
        w(s.first()) + seq_sum(s.drop_first(), w)
    }
}

/// Total amount of a sequence of inputs, in satoshi.
pub open spec fn sum_inputs(s: Seq<InputModel>) -> int {
    seq_sum(s, |x: InputModel| x.amount as int)
}

/// Total value of a sequence of outputs, in satoshi.
pub open spec fn sum_outputs(s: Seq<OutputModel>) -> int {
    seq_sum(s, |x: OutputModel| x.value as int)
}

pub proof fn lemma_seq_sum_push<A>(s: Seq<A>, x: A, w: spec_fn(A) -> int)
    ensures
        seq_sum(s.push(x), w) == seq_sum(s, w) + w(x),
    decreases s.len(),
{
    if s.len() == 0 {
        assert(s.push(x).first() == x);
        assert(s.push(x).drop_first() =~= Seq::<A>::empty());
        assert(s.push(x).len() == 1);
        assert(seq_sum(Seq::<A>::empty(), w) == 0);
        assert(seq_sum(s.push(x), w) == w(s.push(x).first()) + seq_sum(s.push(x).drop_first(), w));
        assert(seq_sum(s.push(x), w) == w(x));
    } else {
        assert(s.push(x).drop_first() =~= s.drop_first().push(x));
        assert(s.push(x).first() == s.first());
        lemma_seq_sum_push(s.drop_first(), x, w);
        assert(seq_sum(s.push(x), w) == w(s.first()) + seq_sum(s.drop_first().push(x), w));
    }
}

pub proof fn lemma_seq_sum_remove<A>(s: Seq<A>, i: int, w: spec_fn(A) -> int)
    requires
        0 <= i < s.len(),
    ensures
        seq_sum(s, w) == seq_sum(s.remove(i), w) + w(s[i]),
    decreases s.len(),
{
    if i == 0 {
        assert(s.remove(0) =~= s.drop_first());
    } else {
        assert(s.remove(i).first() == s.first());
        assert(s.remove(i).drop_first() =~= s.drop_first().remove(i - 1));
        lemma_seq_sum_remove(s.drop_first(), i - 1, w);
    }
}

/// Sums are permutation-invariant: sequences with the same multiset of
/// elements have the same sum.
pub proof fn lemma_seq_sum_multiset<A>(a: Seq<A>, b: Seq<A>, w: spec_fn(A) -> int)
    requires
        a.to_multiset() == b.to_multiset(),
    ensures
        seq_sum(a, w) == seq_sum(b, w),
    decreases a.len(),
{
    broadcast use vstd::seq_lib::group_to_multiset_ensures;

    assert(a.to_multiset().len() == a.len());
    assert(b.to_multiset().len() == b.len());
    if a.len() == 0 {
        assert(b.len() == 0);
    } else {
        let x = a.first();
        assert(a.to_multiset().contains(x));
        assert(b.to_multiset().contains(x));
        assert(b.contains(x));
        let i = choose|i: int| 0 <= i < b.len() && b[i] == x;
        assert(a.drop_first() =~= a.remove(0));
        assert(a.remove(0).to_multiset() == a.to_multiset().remove(x));
        assert(b.remove(i).to_multiset() == b.to_multiset().remove(x));
        lemma_seq_sum_multiset(a.drop_first(), b.remove(i), w);
        lemma_seq_sum_remove(b, i, w);
    }
}

// ---------------------------------------------------------------------------
// Sorting
// ---------------------------------------------------------------------------

pub proof fn lemma_map_values_insert<A, B>(s: Seq<A>, i: int, x: A, f: spec_fn(A) -> B)
    requires
        0 <= i <= s.len(),
    ensures
        s.insert(i, x).map_values(f) =~= s.map_values(f).insert(i, f(x)),
{
}

/// Decides the canonical input order.
pub fn input_le_exec(a: &TxInput, b: &TxInput) -> (r: bool)
    ensures
        r == input_ord()(a@, b@),
{
    if !bytes_eq(&a.txid, &b.txid) {
        bytes_le_exec(&a.txid, &b.txid)
    } else if a.vout != b.vout {
        a.vout <= b.vout
    } else if a.amount != b.amount {
        a.amount <= b.amount
    } else {
        bytes_le_exec(&a.key, &b.key)
    }
}

/// Decides the canonical output order.
pub fn output_le_exec(a: &TxOutput, b: &TxOutput) -> (r: bool)
    ensures
        r == output_ord()(a@, b@),
{
    if !bytes_eq(&a.address, &b.address) {
        bytes_le_exec(&a.address, &b.address)
    } else {
        a.value <= b.value
    }
}

/// Inserts an input into a sorted vector, keeping it sorted.
fn insort_input(v: &mut Vec<TxInput>, x: TxInput)
    requires
        sorted_by(input_views(old(v)@), input_ord()),
    ensures
        sorted_by(input_views(final(v)@), input_ord()),
        input_views(final(v)@).to_multiset() == input_views(old(v)@).to_multiset().insert(x@),
{
    proof {
        lemma_input_ord_total();
    }
    let ghost m0 = input_views(v@);
    let ghost r = input_ord();
    let mut i: usize = 0;
    loop
        invariant_except_break
            0 <= i <= v.len(),
            forall|j: int| 0 <= j < i ==> r(m0[j], x@),
        invariant
            v@ == old(v)@,
            m0 == input_views(v@),
            r == input_ord(),
            total_ordering(r),
            sorted_by(m0, r),
        ensures
            0 <= i <= v.len(),
            forall|j: int| 0 <= j < i ==> r(m0[j], x@),
            i < v.len() ==> r(x@, m0[i as int]),
        decreases v.len() - i,
    {
        if i == v.len() {
            break;
        }
        if !input_le_exec(&v[i], &x) {
            proof {
                assert(!r(m0[i as int], x@));
                assert(r(x@, m0[i as int]));
            }
            break;
        }
        i = i + 1;
    }
    proof {
        assert forall|j: int| i <= j < v.len() implies r(x@, m0[j]) by {
            assert(r(x@, m0[i as int]));
            if j > i {
                assert(r(m0[i as int], m0[j]));
            }
        }
    }
    v.insert(i, x);
    proof {
        lemma_map_values_insert(old(v)@, i as int, x, |t: TxInput| t@);
        assert(input_views(v@) =~= m0.insert(i as int, x@));
        vstd::seq_lib::to_multiset_insert(m0, i as int, x@);
        let m1 = m0.insert(i as int, x@);
        assert forall|k: int, l: int| 0 <= k < l < m1.len() implies #[trigger] r(m1[k], m1[l]) by {
            if l < i {
                assert(m1[k] == m0[k] && m1[l] == m0[l]);
            } else if k > i {
                assert(m1[k] == m0[k - 1] && m1[l] == m0[l - 1]);
            } else if k == i {
                assert(m1[k] == x@ && m1[l] == m0[l - 1] && i <= l - 1 < m0.len());
            } else if l == i {
                assert(m1[k] == m0[k] && m1[l] == x@ && k < i);
            } else {
                assert(k < i && l > i);
                assert(m1[k] == m0[k] && m1[l] == m0[l - 1]);
                assert(r(m0[k], x@) && r(x@, m0[l - 1]));
            }
        }
    }
}

/// Inserts an output into a sorted vector, keeping it sorted.
fn insort_output(v: &mut Vec<TxOutput>, x: TxOutput)
    requires
        sorted_by(output_views(old(v)@), output_ord()),
    ensures
        sorted_by(output_views(final(v)@), output_ord()),
        output_views(final(v)@).to_multiset() == output_views(old(v)@).to_multiset().insert(x@),
{
    proof {
        lemma_output_ord_total();
    }
    let ghost m0 = output_views(v@);
    let ghost r = output_ord();
    let mut i: usize = 0;
    loop
        invariant_except_break
            0 <= i <= v.len(),
            forall|j: int| 0 <= j < i ==> r(m0[j], x@),
        invariant
            v@ == old(v)@,
            m0 == output_views(v@),
            r == output_ord(),
            total_ordering(r),
            sorted_by(m0, r),
        ensures
            0 <= i <= v.len(),
            forall|j: int| 0 <= j < i ==> r(m0[j], x@),
            i < v.len() ==> r(x@, m0[i as int]),
        decreases v.len() - i,
    {
        if i == v.len() {
            break;
        }
        if !output_le_exec(&v[i], &x) {
            proof {
                assert(!r(m0[i as int], x@));
                assert(r(x@, m0[i as int]));
            }
            break;
        }
        i = i + 1;
    }
    proof {
        assert forall|j: int| i <= j < v.len() implies r(x@, m0[j]) by {
            assert(r(x@, m0[i as int]));
            if j > i {
                assert(r(m0[i as int], m0[j]));
            }
        }
    }
    v.insert(i, x);
    proof {
        lemma_map_values_insert(old(v)@, i as int, x, |t: TxOutput| t@);
        assert(output_views(v@) =~= m0.insert(i as int, x@));
        vstd::seq_lib::to_multiset_insert(m0, i as int, x@);
        let m1 = m0.insert(i as int, x@);
        assert forall|k: int, l: int| 0 <= k < l < m1.len() implies #[trigger] r(m1[k], m1[l]) by {
            if l < i {
                assert(m1[k] == m0[k] && m1[l] == m0[l]);
            } else if k > i {
                assert(m1[k] == m0[k - 1] && m1[l] == m0[l - 1]);
            } else if k == i {
                assert(m1[k] == x@ && m1[l] == m0[l - 1] && i <= l - 1 < m0.len());
            } else if l == i {
                assert(m1[k] == m0[k] && m1[l] == x@ && k < i);
            } else {
                assert(k < i && l > i);
                assert(m1[k] == m0[k] && m1[l] == m0[l - 1]);
                assert(r(m0[k], x@) && r(x@, m0[l - 1]));
            }
        }
    }
}

/// Sorts inputs into the canonical order.
pub fn sort_inputs(v: Vec<TxInput>) -> (r: Vec<TxInput>)
    ensures
        input_views(r@) == canon_inputs(input_views(v@)),
{
    proof {
        lemma_input_ord_total();
    }
    let ghost m = input_views(v@);
    let ghost r_ord = input_ord();
    let mut out: Vec<TxInput> = Vec::new();
    let mut rest = v;
    proof {
        broadcast use vstd::seq_lib::group_to_multiset_ensures;

        assert(input_views(out@) =~= Seq::<InputModel>::empty());
        assert(input_views(out@).to_multiset() =~= m.take(0).to_multiset());
        assert(m.take(0) =~= Seq::<InputModel>::empty());
    }
    let n = rest.len();
    let mut i: usize = 0;
    while i < n
        invariant
            0 <= i <= n,
            n == rest.len(),
            m == input_views(rest@),
            r_ord == input_ord(),
            sorted_by(input_views(out@), r_ord),
            input_views(out@).to_multiset() == m.take(i as int).to_multiset(),
        decreases n - i,
    {
        let x = clone_input(&rest[i]);
        proof {
            broadcast use vstd::seq_lib::group_to_multiset_ensures;

            assert(m.take(i + 1) =~= m.take(i as int).push(m[i as int]));
        }
        insort_input(&mut out, x);
        i = i + 1;
    }
    proof {
        assert(m.take(n as int) =~= m);
        m.lemma_sort_by_ensures(r_ord);
        lemma_sorted_unique(input_views(out@), m.sort_by(r_ord), r_ord);
        assert(input_views(out@) == canon_inputs(m));
    }
    out
}

/// Sorts outputs into the canonical order.
pub fn sort_outputs(v: Vec<TxOutput>) -> (r: Vec<TxOutput>)
    ensures
        output_views(r@) == canon_outputs(output_views(v@)),
{
    proof {
        lemma_output_ord_total();
    }
    let ghost m = output_views(v@);
    let ghost r_ord = output_ord();
    let mut out: Vec<TxOutput> = Vec::new();
    let mut rest = v;
    proof {
        broadcast use vstd::seq_lib::group_to_multiset_ensures;

        assert(output_views(out@) =~= Seq::<OutputModel>::empty());
        assert(output_views(out@).to_multiset() =~= m.take(0).to_multiset());
        assert(m.take(0) =~= Seq::<OutputModel>::empty());
    }
    let n = rest.len();
    let mut i: usize = 0;
    while i < n
        invariant
            0 <= i <= n,
            n == rest.len(),
            m == output_views(rest@),
            r_ord == output_ord(),
            sorted_by(output_views(out@), r_ord),
            output_views(out@).to_multiset() == m.take(i as int).to_multiset(),
        decreases n - i,
    {
        let x = clone_output(&rest[i]);
        proof {
            broadcast use vstd::seq_lib::group_to_multiset_ensures;

            assert(m.take(i + 1) =~= m.take(i as int).push(m[i as int]));
        }
        insort_output(&mut out, x);
        i = i + 1;
    }
    proof {
        assert(m.take(n as int) =~= m);
        m.lemma_sort_by_ensures(r_ord);
        lemma_sorted_unique(output_views(out@), m.sort_by(r_ord), r_ord);
        assert(output_views(out@) == canon_outputs(m));
    }
    out
}

/// Copies an input, field by field.
pub fn clone_input(x: &TxInput) -> (r: TxInput)
    ensures
        r@ == x@,
{
    let mut txid: Vec<u8> = Vec::new();
    let mut key: Vec<u8> = Vec::new();
    copy_bytes(&x.txid, &mut txid);
    copy_bytes(&x.key, &mut key);
    TxInput { txid, vout: x.vout, amount: x.amount, key }
}

/// Copies an output, field by field.
pub fn clone_output(x: &TxOutput) -> (r: TxOutput)
    ensures
        r@ == x@,
{
    let mut address: Vec<u8> = Vec::new();
    copy_bytes(&x.address, &mut address);
    TxOutput { address, value: x.value }
}

// ---------------------------------------------------------------------------
// Canonical encoding
// ---------------------------------------------------------------------------

/// Big-endian encoding of a `u32`.
pub open spec fn enc_u32(x: u32) -> Seq<u8> {
    seq![(x >> 24) as u8, (x >> 16) as u8, (x >> 8) as u8, x as u8]
}

/// Big-endian encoding of a `u64`.
pub open spec fn enc_u64(x: u64) -> Seq<u8> {
    seq![
        (x >> 56) as u8,
        (x >> 48) as u8,
        (x >> 40) as u8,
        (x >> 32) as u8,
        (x >> 24) as u8,
        (x >> 16) as u8,
        (x >> 8) as u8,
        x as u8,
    ]
}

/// Length-prefixed encoding of a byte string.
pub open spec fn enc_bytes(b: Seq<u8>) -> Seq<u8> {
    enc_u64(b.len() as u64) + b
}

/// Encoding of one input.
pub open spec fn enc_input(i: InputModel) -> Seq<u8> {
    enc_bytes(i.txid) + enc_u32(i.vout) + enc_u64(i.amount) + enc_bytes(i.key)
}

/// Encoding of one output.
pub open spec fn enc_output(o: OutputModel) -> Seq<u8> {
    enc_bytes(o.address) + enc_u64(o.value)
}

/// Encoding of a sequence of inputs, in order.
pub open spec fn enc_input_seq(s: Seq<InputModel>) -> Seq<u8>
    decreases s.len(),
{
    if s.len() == 0 {
        Seq::empty()
    } else {
        enc_input(s.first()) + enc_input_seq(s.drop_first())
    }
}

/// Encoding of a sequence of outputs, in order.
pub open spec fn enc_output_seq(s: Seq<OutputModel>) -> Seq<u8>
    decreases s.len(),
{
    if s.len() == 0 {
        Seq::empty()
    } else {
        enc_output(s.first()) + enc_output_seq(s.drop_first())
    }
}

/// The canonical byte form of a template: counts, inputs, outputs and fee.
/// Equal templates have byte-identical encodings, and this is what every
/// participant's signer signs (or hashes and signs).
pub open spec fn template_encoding(t: TemplateModel) -> Seq<u8> {
    enc_u64(t.inputs.len() as u64) + enc_input_seq(t.inputs) + enc_u64(t.outputs.len() as u64)
        + enc_output_seq(t.outputs) + enc_u32(t.fee)
}

proof fn lemma_enc_input_seq_push(s: Seq<InputModel>, x: InputModel)
    ensures
        enc_input_seq(s.push(x)) =~= enc_input_seq(s) + enc_input(x),
    decreases s.len(),
{
    assert(enc_input_seq(s.push(x)) == enc_input(s.push(x).first()) + enc_input_seq(
        s.push(x).drop_first(),
    ));
    if s.len() == 0 {
        assert(s.push(x).first() == x);
        assert(s.push(x).drop_first() =~= Seq::<InputModel>::empty());
        assert(enc_input_seq(Seq::<InputModel>::empty()) =~= Seq::<u8>::empty());
        assert(s =~= Seq::<InputModel>::empty());
    } else {
        assert(s.push(x).first() == s.first());
        assert(s.push(x).drop_first() =~= s.drop_first().push(x));
        lemma_enc_input_seq_push(s.drop_first(), x);
        assert(enc_input_seq(s) == enc_input(s.first()) + enc_input_seq(s.drop_first()));
    }
}

proof fn lemma_enc_output_seq_push(s: Seq<OutputModel>, x: OutputModel)
    ensures
        enc_output_seq(s.push(x)) =~= enc_output_seq(s) + enc_output(x),
    decreases s.len(),
{
    assert(enc_output_seq(s.push(x)) == enc_output(s.push(x).first()) + enc_output_seq(
        s.push(x).drop_first(),
    ));
    if s.len() == 0 {
        assert(s.push(x).first() == x);
        assert(s.push(x).drop_first() =~= Seq::<OutputModel>::empty());
        assert(enc_output_seq(Seq::<OutputModel>::empty()) =~= Seq::<u8>::empty());
        assert(s =~= Seq::<OutputModel>::empty());
    } else {
        assert(s.push(x).first() == s.first());
        assert(s.push(x).drop_first() =~= s.drop_first().push(x));
        lemma_enc_output_seq_push(s.drop_first(), x);
        assert(enc_output_seq(s) == enc_output(s.first()) + enc_output_seq(s.drop_first()));
    }
}

/// Appends the big-endian bytes of a `u32`.
fn push_u32_be(out: &mut Vec<u8>, x: u32)
    ensures
        final(out)@ == old(out)@ + enc_u32(x),
{
    out.push((x >> 24) as u8);
    out.push((x >> 16) as u8);
    out.push((x >> 8) as u8);
    out.push(x as u8);
    proof {
        assert(out@ =~= old(out)@ + enc_u32(x));
    }
}

/// Appends the big-endian bytes of a `u64`.
fn push_u64_be(out: &mut Vec<u8>, x: u64)
    ensures
        final(out)@ == old(out)@ + enc_u64(x),
{
    out.push((x >> 56) as u8);
    out.push((x >> 48) as u8);
    out.push((x >> 40) as u8);
    out.push((x >> 32) as u8);
    out.push((x >> 24) as u8);
    out.push((x >> 16) as u8);
    out.push((x >> 8) as u8);
    out.push(x as u8);
    proof {
        assert(out@ =~= old(out)@ + enc_u64(x));
    }
}

/// Appends a length-prefixed byte string.
fn push_len_bytes(out: &mut Vec<u8>, b: &Vec<u8>)
    ensures
        final(out)@ == old(out)@ + enc_bytes(b@),
{
    push_u64_be(out, b.len() as u64);
    copy_bytes(b, out);
    proof {
        assert(out@ =~= old(out)@ + enc_bytes(b@));
    }
}

/// Appends the encoding of one input.
fn push_input(out: &mut Vec<u8>, i: &TxInput)
    ensures
        final(out)@ == old(out)@ + enc_input(i@),
{
    push_len_bytes(out, &i.txid);
    push_u32_be(out, i.vout);
    push_u64_be(out, i.amount);
    push_len_bytes(out, &i.key);
    proof {
        assert(out@ =~= old(out)@ + enc_input(i@));
    }
}

/// Appends the encoding of one output.
fn push_output(out: &mut Vec<u8>, o: &TxOutput)
    ensures
        final(out)@ == old(out)@ + enc_output(o@),
{
    push_len_bytes(out, &o.address);
    push_u64_be(out, o.value);
    proof {
        assert(out@ =~= old(out)@ + enc_output(o@));
    }
}

impl UnsignedTransaction {
    /// The canonical byte form of this template.  Deterministic: equal
    /// templates give byte-identical encodings, so independent
    /// participants converge on the same bytes to sign.
    pub fn encode(&self) -> (r: Vec<u8>)
        ensures
            r@ == template_encoding(self@),
    {
        let ghost ins = self@.inputs;
        let ghost outs = self@.outputs;
        let mut out: Vec<u8> = Vec::new();
        push_u64_be(&mut out, self.inputs.len() as u64);
        let n = self.inputs.len();
        let mut i: usize = 0;
        proof {
            assert(ins.take(0) =~= Seq::<InputModel>::empty());
            assert(out@ =~= enc_u64(ins.len() as u64) + enc_input_seq(ins.take(0)));
        }
        while i < n
            invariant
                0 <= i <= n,
                n == self.inputs.len(),
                ins == self@.inputs,
                out@ == enc_u64(ins.len() as u64) + enc_input_seq(ins.take(i as int)),
            decreases n - i,
        {
            push_input(&mut out, &self.inputs[i]);
            proof {
                assert(ins.take(i + 1) =~= ins.take(i as int).push(ins[i as int]));
                lemma_enc_input_seq_push(ins.take(i as int), ins[i as int]);
                assert(out@ =~= enc_u64(ins.len() as u64) + enc_input_seq(ins.take(i + 1)));
            }
            i = i + 1;
        }
        proof {
            assert(ins.take(n as int) =~= ins);
        }
        let ghost head = out@;
        push_u64_be(&mut out, self.outputs.len() as u64);
        let m = self.outputs.len();
        let mut j: usize = 0;
        proof {
            assert(outs.take(0) =~= Seq::<OutputModel>::empty());
            assert(out@ =~= head + enc_u64(outs.len() as u64) + enc_output_seq(outs.take(0)));
        }
        while j < m
            invariant
                0 <= j <= m,
                m == self.outputs.len(),
                outs == self@.outputs,
                head == enc_u64(ins.len() as u64) + enc_input_seq(ins),
                ins == self@.inputs,
                out@ == head + enc_u64(outs.len() as u64) + enc_output_seq(outs.take(j as int)),
            decreases m - j,
        {
            push_output(&mut out, &self.outputs[j]);
            proof {
                assert(outs.take(j + 1) =~= outs.take(j as int).push(outs[j as int]));
                lemma_enc_output_seq_push(outs.take(j as int), outs[j as int]);
                assert(out@ =~= head + enc_u64(outs.len() as u64) + enc_output_seq(
                    outs.take(j + 1),
                ));
            }
            j = j + 1;
        }
        proof {
            assert(outs.take(m as int) =~= outs);
        }
        push_u32_be(&mut out, self.fee);
        proof {
            assert(out@ =~= template_encoding(self@));
        }
        out
    }
}

// ---------------------------------------------------------------------------
// Template construction
// ---------------------------------------------------------------------------

/// The balance rule: input amounts cover output values plus the fee,
/// exactly.  No rounding tolerance and no silent disposal of excess.
pub open spec fn balance_ok(ins: Seq<InputModel>, outs: Seq<OutputModel>, fee: u32) -> bool {
    sum_inputs(ins) == sum_outputs(outs) + fee
}

/// The template every well-behaved participant derives from the given
/// inputs and outputs: both canonically sorted, the fee recorded.
pub open spec fn template_model(
    ins: Seq<InputModel>,
    outs: Seq<OutputModel>,
    fee: u32,
) -> TemplateModel {
    TemplateModel { inputs: canon_inputs(ins), outputs: canon_outputs(outs), fee }
}

/// Sums input amounts without overflow.
fn sum_inputs_exec(v: &Vec<TxInput>) -> (r: u128)
    ensures
        r as int == sum_inputs(input_views(v@)),
        r as int <= v@.len() * 0xffff_ffff_ffff_ffffu64,
{
    let ghost m = input_views(v@);
    let ghost w = |x: InputModel| x.amount as int;
    let n = v.len();
    let mut acc: u128 = 0;
    let mut i: usize = 0;
    proof {
        assert(m.take(0) =~= Seq::<InputModel>::empty());
    }
    while i < n
        invariant
            0 <= i <= n,
            n == v.len(),
            m == input_views(v@),
            w == (|x: InputModel| x.amount as int),
            acc as int == seq_sum(m.take(i as int), w),
            acc as int <= i * 0xffff_ffff_ffff_ffffu64,
        decreases n - i,
    {
        proof {
            assert(m.take(i + 1) =~= m.take(i as int).push(m[i as int]));
            lemma_seq_sum_push(m.take(i as int), m[i as int], w);
            assert((i as int) * 0xffff_ffff_ffff_ffffu64 + 0xffff_ffff_ffff_ffffu64 == (i + 1)
                * 0xffff_ffff_ffff_ffffu64) by (nonlinear_arith);
            assert((i + 1) * 0xffff_ffff_ffff_ffffu64 <= (n as int)
                * 0xffff_ffff_ffff_ffffu64) by (nonlinear_arith)
                requires
                    i + 1 <= n as int,
            ;
            assert((n as int) * 0xffff_ffff_ffff_ffffu64 <= 0xffff_ffff_ffff_ffffu64
                * 0xffff_ffff_ffff_ffffu64) by (nonlinear_arith)
                requires
                    n as int <= 0xffff_ffff_ffff_ffffu64,
            ;
        }
        acc = acc + (v[i].amount as u128);
        i = i + 1;
    }
    proof {
        assert(m.take(n as int) =~= m);
        assert((n as int) * 0xffff_ffff_ffff_ffffu64 <= v@.len()
            * 0xffff_ffff_ffff_ffffu64);
    }
    acc
}

/// Sums output values without overflow.
fn sum_outputs_exec(v: &Vec<TxOutput>) -> (r: u128)
    ensures
        r as int == sum_outputs(output_views(v@)),
        r as int <= v@.len() * 0xffff_ffff_ffff_ffffu64,
{
    let ghost m = output_views(v@);
    let ghost w = |x: OutputModel| x.value as int;
    let n = v.len();
    let mut acc: u128 = 0;
    let mut i: usize = 0;
    proof {
        assert(m.take(0) =~= Seq::<OutputModel>::empty());
    }
    while i < n
        invariant
            0 <= i <= n,
            n == v.len(),
            m == output_views(v@),
            w == (|x: OutputModel| x.value as int),
            acc as int == seq_sum(m.take(i as int), w),
            acc as int <= i * 0xffff_ffff_ffff_ffffu64,
        decreases n - i,
    {
        proof {
            assert(m.take(i + 1) =~= m.take(i as int).push(m[i as int]));
            lemma_seq_sum_push(m.take(i as int), m[i as int], w);
            assert((i as int) * 0xffff_ffff_ffff_ffffu64 + 0xffff_ffff_ffff_ffffu64 == (i + 1)
                * 0xffff_ffff_ffff_ffffu64) by (nonlinear_arith);
            assert((i + 1) * 0xffff_ffff_ffff_ffffu64 <= (n as int)
                * 0xffff_ffff_ffff_ffffu64) by (nonlinear_arith)
                requires
                    i + 1 <= n as int,
            ;
            assert((n as int) * 0xffff_ffff_ffff_ffffu64 <= 0xffff_ffff_ffff_ffffu64
                * 0xffff_ffff_ffff_ffffu64) by (nonlinear_arith)
                requires
                    n as int <= 0xffff_ffff_ffff_ffffu64,
            ;
        }
        acc = acc + (v[i].value as u128);
        i = i + 1;
    }
    proof {
        assert(m.take(n as int) =~= m);
        assert((n as int) * 0xffff_ffff_ffff_ffffu64 <= v@.len()
            * 0xffff_ffff_ffff_ffffu64);
    }
    acc
}

/// Builds the unsigned template: sorts inputs and outputs into the
/// canonical order and checks the exact balance rule.  A pure function of
/// the input and output sets: any ordering of the same sets yields the
/// same template (see [`lemma_build_template_order_independent`]).
pub fn build_template(inputs: Vec<TxInput>, outputs: Vec<TxOutput>, fee: u32) -> (r: Result<
    UnsignedTransaction,
    ProtocolError,
>)
    ensures
        r is Ok <==> balance_ok(input_views(inputs@), output_views(outputs@), fee),
        r matches Ok(t) ==> t@ == template_model(input_views(inputs@), output_views(outputs@), fee),
        r matches Err(e) ==> e == ProtocolError::BalanceError,
{
    let ghost ins0 = input_views(inputs@);
    let ghost outs0 = output_views(outputs@);
    let sorted_ins = sort_inputs(inputs);
    let sorted_outs = sort_outputs(outputs);
    let s_in = sum_inputs_exec(&sorted_ins);
    let s_out = sum_outputs_exec(&sorted_outs);
    let n_out = sorted_outs.len();
    proof {
        lemma_input_ord_total();
        lemma_output_ord_total();
        ins0.lemma_sort_by_ensures(input_ord());
        outs0.lemma_sort_by_ensures(output_ord());
        lemma_seq_sum_multiset(input_views(sorted_ins@), ins0, |x: InputModel| x.amount as int);
        lemma_seq_sum_multiset(output_views(sorted_outs@), outs0, |x: OutputModel| x.value as int);
        assert(sorted_outs@.len() == n_out as int);
        assert(s_out as int + fee as int <= 0xffff_ffff_ffff_ffffu64
            * 0xffff_ffff_ffff_ffffu64 + 0xffff_ffffu32) by (nonlinear_arith)
            requires
                s_out as int <= (n_out as int) * 0xffff_ffff_ffff_ffffu64,
                n_out as int <= 0xffff_ffff_ffff_ffffu64,
                fee <= 0xffff_ffffu32,
        ;
    }
    if s_in != s_out + (fee as u128) {
        return Err(ProtocolError::BalanceError);
    }
    Ok(UnsignedTransaction { inputs: sorted_ins, outputs: sorted_outs, fee })
}

/// Law: order-independence of template construction.  Any two orderings of
/// the same input set and the same output set give the same canonical
/// template, the same balance verdict, and byte-identical encodings.
pub proof fn lemma_build_template_order_independent(
    ins_a: Seq<InputModel>,
    ins_b: Seq<InputModel>,
    outs_a: Seq<OutputModel>,
    outs_b: Seq<OutputModel>,
    fee: u32,
)
    requires
        ins_a.to_multiset() == ins_b.to_multiset(),
        outs_a.to_multiset() == outs_b.to_multiset(),
    ensures
        template_model(ins_a, outs_a, fee) == template_model(ins_b, outs_b, fee),
        balance_ok(ins_a, outs_a, fee) == balance_ok(ins_b, outs_b, fee),
        template_encoding(template_model(ins_a, outs_a, fee)) == template_encoding(
            template_model(ins_b, outs_b, fee),
        ),
{
    lemma_input_ord_total();
    lemma_output_ord_total();
    ins_a.lemma_sort_by_ensures(input_ord());
    ins_b.lemma_sort_by_ensures(input_ord());
    outs_a.lemma_sort_by_ensures(output_ord());
    outs_b.lemma_sort_by_ensures(output_ord());
    lemma_sorted_unique(ins_a.sort_by(input_ord()), ins_b.sort_by(input_ord()), input_ord());
    lemma_sorted_unique(outs_a.sort_by(output_ord()), outs_b.sort_by(output_ord()), output_ord());
    lemma_seq_sum_multiset(ins_a, ins_b, |x: InputModel| x.amount as int);
    lemma_seq_sum_multiset(outs_a, outs_b, |x: OutputModel| x.value as int);
    assert(template_model(ins_a, outs_a, fee) =~= template_model(ins_b, outs_b, fee));
}

// ---------------------------------------------------------------------------
// From commitments to template inputs and outputs
// ---------------------------------------------------------------------------

/// The views of a sequence of commitments.
pub open spec fn commitment_views(s: Seq<Commitment>) -> Seq<CommitmentModel> {
    s.map_values(|c: Commitment| c@)
}

/// The template input one commitment contributes.
pub open spec fn input_of_commitment(c: CommitmentModel) -> InputModel {
    InputModel { txid: c.txid, vout: c.vout, amount: c.amount, key: c.key }
}

/// The template inputs of a commitment set, in the set's order.
pub open spec fn inputs_of_model(s: Seq<CommitmentModel>) -> Seq<InputModel> {
    s.map_values(|c: CommitmentModel| input_of_commitment(c))
}

/// The equal-value template output one commitment contributes.
pub open spec fn output_of_commitment(c: CommitmentModel, denomination: u64) -> OutputModel {
    OutputModel { address: c.address, value: denomination }
}

/// The template outputs of a commitment set, in the set's order.
pub open spec fn outputs_of_model(s: Seq<CommitmentModel>, denomination: u64) -> Seq<OutputModel> {
    s.map_values(|c: CommitmentModel| output_of_commitment(c, denomination))
}

/// Materialises the template inputs of a commitment set.
pub fn derive_inputs(cs: &Vec<Commitment>) -> (r: Vec<TxInput>)
    ensures
        input_views(r@) == inputs_of_model(commitment_views(cs@)),
{
    let n = cs.len();
    let mut out: Vec<TxInput> = Vec::new();
    let mut i: usize = 0;
    while i < n
        invariant
            0 <= i <= n,
            n == cs@.len(),
            out@.len() == i,
            forall|j: int|
                0 <= j < i ==> (#[trigger] out@[j])@ == input_of_commitment(cs@[j]@),
        decreases n - i,
    {
        let c = &cs[i];
        let mut txid: Vec<u8> = Vec::new();
        let mut key: Vec<u8> = Vec::new();
        copy_bytes(&c.input.outpoint.txid, &mut txid);
        copy_bytes(&c.key, &mut key);
        out.push(TxInput { txid, vout: c.input.outpoint.vout, amount: c.input.amount, key });
        i = i + 1;
    }
    proof {
        assert(input_views(out@) =~= inputs_of_model(commitment_views(cs@)));
    }
    out
}

/// Materialises the equal-value template outputs of a commitment set.
pub fn derive_outputs(cs: &Vec<Commitment>, denomination: u64) -> (r: Vec<TxOutput>)
    ensures
        output_views(r@) == outputs_of_model(commitment_views(cs@), denomination),
{
    let n = cs.len();
    let mut out: Vec<TxOutput> = Vec::new();
    let mut i: usize = 0;
    while i < n
        invariant
            0 <= i <= n,
            n == cs@.len(),
            out@.len() == i,
            forall|j: int|
                0 <= j < i ==> (#[trigger] out@[j])@ == output_of_commitment(
                    cs@[j]@,
                    denomination,
                ),
        decreases n - i,
    {
        let c = &cs[i];
        let mut address: Vec<u8> = Vec::new();
        copy_bytes(&c.output.bytes, &mut address);
        out.push(TxOutput { address, value: denomination });
        i = i + 1;
    }
    proof {
        assert(output_views(out@) =~= outputs_of_model(commitment_views(cs@), denomination));
    }
    out
}

// ---------------------------------------------------------------------------
// Assembly
// ---------------------------------------------------------------------------

/// One peer's signature message: which input it signs, the signer key it
/// proves ownership of, the template bytes it covers, and the opaque
/// signature material itself.  The protocol's ownership-proof model is
/// that a signature verifies when its key equals the input's committing
/// key and it covers the canonical template encoding; the cryptographic
/// soundness of the material is the signer collaborator's concern.
#[derive(Clone, Debug)]
pub struct InputSignature {
    pub input_index: usize,
    pub key: Vec<u8>,
    pub digest: Vec<u8>,
    pub material: Vec<u8>,
}

/// Mathematical view of an [`InputSignature`].
#[verifier::ext_equal]
pub struct SigModel {
    pub input_index: usize,
    pub key: Seq<u8>,
    pub digest: Seq<u8>,
    pub material: Seq<u8>,
}

impl View for InputSignature {
    type V = SigModel;

    open spec fn view(&self) -> SigModel {
        SigModel {
            input_index: self.input_index,
            key: self.key@,
            digest: self.digest@,
            material: self.material@,
        }
    }
}

/// The views of a sequence of signatures.
pub open spec fn sig_views(s: Seq<InputSignature>) -> Seq<SigModel> {
    s.map_values(|x: InputSignature| x@)
}

/// A signature verifies against an input of a template when it proves the
/// input's committing key and covers the template's canonical bytes.
pub open spec fn sig_verifies(s: SigModel, inp: InputModel, t: TemplateModel) -> bool {
    s.key == inp.key && s.digest == template_encoding(t)
}

/// Some signature in the set claims input `i`.
pub open spec fn has_sig_for(sigs: Seq<SigModel>, i: int) -> bool {
    exists|j: int| 0 <= j < sigs.len() && sigs[j].input_index as int == i
}

/// Some signature in the set claims input `i` and verifies against it.
pub open spec fn has_valid_sig(t: TemplateModel, sigs: Seq<SigModel>, i: int) -> bool {
    exists|j: int|
        0 <= j < sigs.len() && sigs[j].input_index as int == i && sig_verifies(
            sigs[j],
            t.inputs[i],
            t,
        )
}

/// Every input of the template has some signature claiming it.
pub open spec fn all_inputs_claimed(t: TemplateModel, sigs: Seq<SigModel>) -> bool {
    forall|i: int| 0 <= i < t.inputs.len() ==> has_sig_for(sigs, i)
}

/// Every input of the template has a verifying signature.
pub open spec fn all_inputs_signed(t: TemplateModel, sigs: Seq<SigModel>) -> bool {
    forall|i: int| 0 <= i < t.inputs.len() ==> has_valid_sig(t, sigs, i)
}

/// The finished transaction: the template and one verifying witness per
/// input, in input order.
#[derive(Debug)]
pub struct SignedTransaction {
    pub template: UnsignedTransaction,
    pub witnesses: Vec<InputSignature>,
}

/// Mathematical view of a [`SignedTransaction`].
#[verifier::ext_equal]
pub struct SignedModel {
    pub template: TemplateModel,
    pub witnesses: Seq<SigModel>,
}

impl View for SignedTransaction {
    type V = SignedModel;

    open spec fn view(&self) -> SignedModel {
        SignedModel { template: self.template@, witnesses: sig_views(self.witnesses@) }
    }
}

/// A well-formed signed transaction: one witness per input, each claiming
/// its input and verifying against it.
pub open spec fn signed_tx_wf(st: SignedModel) -> bool {
    &&& st.witnesses.len() == st.template.inputs.len()
    &&& forall|i: int|
        0 <= i < st.witnesses.len() ==> (#[trigger] st.witnesses[i]).input_index as int == i
            && sig_verifies(st.witnesses[i], st.template.inputs[i], st.template)
}

/// Copies a signature, field by field.
pub fn clone_signature(x: &InputSignature) -> (r: InputSignature)
    ensures
        r@ == x@,
{
    let mut key: Vec<u8> = Vec::new();
    let mut digest: Vec<u8> = Vec::new();
    let mut material: Vec<u8> = Vec::new();
    copy_bytes(&x.key, &mut key);
    copy_bytes(&x.digest, &mut digest);
    copy_bytes(&x.material, &mut material);
    InputSignature { input_index: x.input_index, key, digest, material }
}

/// Attaches one signature per input, in input order.  Fails with
/// `MissingSignature` when some input has no signature claiming it at all,
/// and with `SignatureMismatch` when every input is claimed but some input
/// has no signature that verifies against its committing key and the
/// canonical template bytes.
pub fn assemble(template: UnsignedTransaction, signatures: &Vec<InputSignature>) -> (r: Result<
    SignedTransaction,
    ProtocolError,
>)
    ensures
        r is Ok <==> all_inputs_signed(template@, sig_views(signatures@)),
        !all_inputs_claimed(template@, sig_views(signatures@)) ==> r == Err::<
            SignedTransaction,
            ProtocolError,
        >(ProtocolError::MissingSignature),
        all_inputs_claimed(template@, sig_views(signatures@)) && !all_inputs_signed(
            template@,
            sig_views(signatures@),
        ) ==> r == Err::<SignedTransaction, ProtocolError>(ProtocolError::SignatureMismatch),
        r matches Ok(st) ==> st@.template == template@ && signed_tx_wf(st@) && forall|i: int|
            0 <= i < st@.witnesses.len() ==> sig_views(signatures@).contains(
                #[trigger] st@.witnesses[i],
            ),
{
    let ghost tm = template@;
    let ghost sg = sig_views(signatures@);
    let enc = template.encode();
    let n = template.inputs.len();
    let n_sigs = signatures.len();

    // First pass: every input must be claimed by some signature.
    let mut i: usize = 0;
    while i < n
        invariant
            0 <= i <= n,
            n == template.inputs.len(),
            tm == template@,
            sg == sig_views(signatures@),
            n_sigs == signatures.len(),
            forall|k: int| 0 <= k < i ==> has_sig_for(sg, k),
        decreases n - i,
    {
        let mut j: usize = 0;
        let mut claimed = false;
        while j < n_sigs
            invariant
                0 <= j <= n_sigs,
                n_sigs == signatures.len(),
                sg == sig_views(signatures@),
                claimed ==> has_sig_for(sg, i as int),
                !claimed ==> forall|l: int| 0 <= l < j ==> sg[l].input_index as int != i as int,
            decreases n_sigs - j,
        {
            if signatures[j].input_index == i {
                claimed = true;
                proof {
                    assert(sg[j as int].input_index as int == i as int);
                }
            }
            j = j + 1;
        }
        if !claimed {
            proof {
                assert(!has_sig_for(sg, i as int));
                assert(!has_valid_sig(tm, sg, i as int));
                assert(!all_inputs_claimed(tm, sg));
                assert(!all_inputs_signed(tm, sg));
            }
            return Err(ProtocolError::MissingSignature);
        }
        i = i + 1;
    }
    proof {
        assert(all_inputs_claimed(tm, sg));
    }

    // Second pass: collect one verifying witness per input, in input order.
    let mut witnesses: Vec<InputSignature> = Vec::new();
    let mut i: usize = 0;
    while i < n
        invariant
            0 <= i <= n,
            n == template.inputs.len(),
            tm == template@,
            sg == sig_views(signatures@),
            n_sigs == signatures.len(),
            enc@ == template_encoding(tm),
            witnesses@.len() == i,
            all_inputs_claimed(tm, sg),
            forall|k: int| 0 <= k < i ==> has_valid_sig(tm, sg, k),
            forall|k: int|
                0 <= k < i ==> (#[trigger] sig_views(witnesses@)[k]).input_index as int == k
                    && sig_verifies(sig_views(witnesses@)[k], tm.inputs[k], tm) && sg.contains(
                    sig_views(witnesses@)[k],
                ),
        decreases n - i,
    {
        let mut j: usize = 0;
        let mut found = false;
        while j < n_sigs && !found
            invariant
                0 <= j <= n_sigs,
                n_sigs == signatures.len(),
                sg == sig_views(signatures@),
                tm == template@,
                n == template.inputs.len(),
                i < n,
                enc@ == template_encoding(tm),
                !found ==> forall|l: int|
                    0 <= l < j ==> !(sg[l].input_index as int == i as int && sig_verifies(
                        sg[l],
                        tm.inputs[i as int],
                        tm,
                    )),
                found ==> j > 0 && j <= n_sigs && sg[j - 1].input_index as int == i as int
                    && sig_verifies(sg[j - 1], tm.inputs[i as int], tm),
            decreases n_sigs - j,
        {
            let s = &signatures[j];
            if s.input_index == i {
                let key_ok = bytes_eq(&s.key, &template.inputs[i].key);
                let digest_ok = bytes_eq(&s.digest, &enc);
                if key_ok && digest_ok {
                    found = true;
                    proof {
                        assert(sg[j as int] == s@);
                        assert(sig_verifies(sg[j as int], tm.inputs[i as int], tm));
                    }
                }
            }
            j = j + 1;
        }
        if !found {
            proof {
                assert(!has_valid_sig(tm, sg, i as int));
                assert(!all_inputs_signed(tm, sg));
            }
            return Err(ProtocolError::SignatureMismatch);
        }
        let ghost old_w = witnesses@;
        let w = clone_signature(&signatures[j - 1]);
        proof {
            assert(sg[j - 1] == signatures@[j - 1]@);
            assert(w@ == sg[j - 1]);
        }
        witnesses.push(w);
        proof {
            assert(sig_views(witnesses@) =~= sig_views(old_w).push(w@));
            assert(sg.contains(sg[j - 1]));
            assert(has_valid_sig(tm, sg, i as int));
            assert forall|k: int|
                0 <= k < i + 1 implies (#[trigger] sig_views(witnesses@)[k]).input_index as int
                == k && sig_verifies(sig_views(witnesses@)[k], tm.inputs[k], tm) && sg.contains(
                sig_views(witnesses@)[k],
            ) by {
                if k < i {
                    assert(sig_views(witnesses@)[k] == sig_views(old_w)[k]);
                } else {
                    assert(sig_views(witnesses@)[k] == w@);
                }
            }
        }
        i = i + 1;
    }
    proof {
        assert(all_inputs_signed(tm, sg));
    }
    let st = SignedTransaction { template, witnesses };
    proof {
        assert(st@.witnesses =~= sig_views(witnesses@));
        assert(signed_tx_wf(st@));
    }
    Ok(st)
}

/// Appends the contents of one byte vector to another.
pub fn copy_bytes(src: &Vec<u8>, dst: &mut Vec<u8>)
    ensures
        final(dst)@ == old(dst)@ + src@,
{
    let n = src.len();
    let mut i: usize = 0;
    proof {
        assert(dst@ =~= old(dst)@ + src@.take(0));
    }
    while i < n
        invariant
            0 <= i <= n,
            n == src.len(),
            dst@ == old(dst)@ + src@.take(i as int),
        decreases n - i,
    {
        dst.push(src[i]);
        proof {
            assert(old(dst)@ + src@.take(i + 1) =~= (old(dst)@ + src@.take(i as int)).push(
                src@[i as int],
            ));
        }
        i = i + 1;
    }
    proof {
        assert(src@.take(n as int) =~= src@);
    }
}

} // verus!
