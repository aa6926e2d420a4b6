//! Iterative multi-pass search: a set of candidate addresses is narrowed by
//! comparing the values read now with those read at the previous pass.

use vstd::prelude::*;
use crate::encoding::{le_value, read_le};
use crate::shared::ValueType;

verus! {

/// ScanOperation defines how the current memory values are compared to previous findings.
#[derive(Debug, Clone, Copy, PartialEq, Eq, Structural)]
pub enum ScanOperation {
    ExactValue,
    Unchanged,
    Changed,
    Increased,
    Decreased,
    BiggerThan,
    SmallerThan,
}

/// The unsigned value of a little-endian word of `width` bytes; a slice of
/// any other length reads as zero.
pub open spec fn word(b: Seq<u8>, width: nat) -> nat {
    if b.len() == width {
        le_value(b)
    } else {
        0
    }
}

/// The two's-complement value of a 32-bit word.
pub open spec fn i32_of(w: nat) -> int {
    if w < 0x8000_0000 {
        w as int
    } else {
        w - 0x1_0000_0000
    }
}

/// A binary32 bit pattern is a NaN: all exponent bits set and a nonzero
/// fraction.
pub open spec fn f32_is_nan(bits: nat) -> bool {
    bits % 0x8000_0000 > 0x7F80_0000
}

/// The position of a binary32 bit pattern on the real line: its magnitude
/// bits, negated for a set sign bit, so that both zeros sit at 0.
pub open spec fn f32_key(bits: nat) -> int {
    if bits < 0x8000_0000 {
        bits as int
    } else {
        -(bits - 0x8000_0000)
    }
}

/// The IEEE 754 `<` on binary32 values given by their bit patterns: false
/// whenever either side is a NaN.
pub open spec fn f32_less(a: nat, b: nat) -> bool {
    !f32_is_nan(a) && !f32_is_nan(b) && f32_key(a) < f32_key(b)
}

/// A binary64 bit pattern is a NaN.
pub open spec fn f64_is_nan(bits: nat) -> bool {
    bits % 0x8000_0000_0000_0000 > 0x7FF0_0000_0000_0000
}

/// The position of a binary64 bit pattern on the real line.
pub open spec fn f64_key(bits: nat) -> int {
    if bits < 0x8000_0000_0000_0000 {
        bits as int
    } else {
        -(bits - 0x8000_0000_0000_0000)
    }
}

/// The IEEE 754 `<` on binary64 values given by their bit patterns.
pub open spec fn f64_less(a: nat, b: nat) -> bool {
    !f64_is_nan(a) && !f64_is_nan(b) && f64_key(a) < f64_key(b)
}

/// The value in `curr` compares above (`increased`) or below the value in
/// `prev`, read as a value of type `vt`; other types never compare.
pub open spec fn numeric_change(vt: ValueType, prev: Seq<u8>, curr: Seq<u8>, increased: bool) -> bool {
    match vt {
        ValueType::Int32 => {
            let p = i32_of(word(prev, 4));
            let c = i32_of(word(curr, 4));
            if increased {
                c > p
            } else {
                c < p
            }
        },
        ValueType::Float32 => {
            let p = word(prev, 4);
            let c = word(curr, 4);
            if increased {
                f32_less(p, c)
            } else {
                f32_less(c, p)
            }
        },
        ValueType::Float64 => {
            let p = word(prev, 8);
            let c = word(curr, 8);
            if increased {
                f64_less(p, c)
            } else {
                f64_less(c, p)
            }
        },
        _ => false,
    }
}

/// A candidate whose value went from `prev` to `curr` passes the operation.
pub open spec fn passes(
    vt: ValueType,
    op: ScanOperation,
    target: Option<Seq<u8>>,
    prev: Seq<u8>,
    curr: Seq<u8>,
) -> bool {
    match op {
        ScanOperation::ExactValue => target matches Some(t) && curr == t,
        ScanOperation::Unchanged => curr == prev,
        ScanOperation::Changed => curr != prev,
        ScanOperation::Increased => numeric_change(vt, prev, curr, true),
        ScanOperation::Decreased => numeric_change(vt, prev, curr, false),
        _ => false,
    }
}

/// The bytes of `values` laid end to end.
pub open spec fn flatten(values: Seq<Seq<u8>>) -> Seq<u8>
    decreases values.len(),
{
    if values.len() == 0 {
        seq![]
    } else {
        flatten(values.drop_last()) + values.last()
    }
}

/// The value recorded for the candidate at `index`.
pub open spec fn slot(values: Seq<u8>, size: nat, index: int) -> Seq<u8> {
    values.subrange(index * size, index * size + size)
}

/// The candidates, and their current values laid end to end, that pass the
/// operation among the first `n` ones: a candidate stays when its read
/// succeeded and the values before and now pass.
pub open spec fn filtered(
    candidates: Seq<usize>,
    previous: Seq<u8>,
    vt: ValueType,
    op: ScanOperation,
    target: Option<Seq<u8>>,
    reads: Seq<Option<Seq<u8>>>,
    n: nat,
) -> (Seq<usize>, Seq<u8>)
    decreases n,
{
    if n == 0 {
        (seq![], seq![])
    } else {
        let i = n - 1;
        let (c, v) = filtered(candidates, previous, vt, op, target, reads, i as nat);
        match reads[i] {
            Some(curr) => if passes(vt, op, target, slot(previous, vt.spec_size(), i), curr) {
                (c.push(candidates[i]), v + curr)
            } else {
                (c, v)
            },
            None => (c, v),
        }
    }
}

/// DifferentialScanSession maintains the state of an iterative multi-pass search.
pub struct DifferentialScanSession {
    pub candidates: Vec<usize>,
    pub previous_values: Vec<u8>,
    pub value_type: ValueType,
}

proof fn lemma_slot_in_bounds(i: int, n: int, size: int)
    requires
        0 <= i < n,
        size >= 0,
    ensures
        0 <= i * size,
        i * size + size <= n * size,
{
    assert(0 <= i * size) by (nonlinear_arith)
        requires
            0 <= i,
            size >= 0,
    ;
    assert(i * size + size <= n * size) by (nonlinear_arith)
        requires
            i < n,
            size >= 0,
    ;
}

proof fn lemma_flatten_len(values: Seq<Seq<u8>>, size: nat)
    requires
        forall|i: int| 0 <= i < values.len() ==> (#[trigger] values[i]).len() == size,
    ensures
        flatten(values).len() == values.len() * size,
    decreases values.len(),
{
    if values.len() > 0 {
        lemma_flatten_len(values.drop_last(), size);
        assert(values.last() == values[values.len() - 1]);
        assert((values.len() - 1) * size + size == values.len() * size) by (nonlinear_arith);
    }
}

impl DifferentialScanSession {
    /// Each candidate has exactly one recorded value of the session's type.
    pub open spec fn wf(&self) -> bool {
        self.previous_values@.len() == self.candidates@.len() * self.value_type.spec_size()
    }

    /// A session over `initial_results`, whose values `values` were read one
    /// per candidate.
    pub fn new(initial_results: Vec<usize>, values: &Vec<Vec<u8>>, vtype: ValueType) -> (s: Self)
        requires
            values@.len() == initial_results@.len(),
            forall|i: int| 0 <= i < values@.len() ==> (#[trigger] values@[i])@.len()
                == vtype.spec_size(),
        ensures
            s.wf(),
            s.candidates@ == initial_results@,
            s.previous_values@ == flatten(values.deep_view()),
            s.value_type == vtype,
    {
        let mut session = Self { candidates: initial_results, previous_values: Vec::new(), value_type: vtype };
        session.snapshot_values(values);
        session
    }

    /// Records `values`, read one per candidate, as the values to compare
    /// with at the next pass.
    pub fn snapshot_values(&mut self, values: &Vec<Vec<u8>>)
        requires
            values@.len() == old(self).candidates@.len(),
            forall|i: int| 0 <= i < values@.len() ==> (#[trigger] values@[i])@.len()
                == old(self).value_type.spec_size(),
        ensures
            final(self).wf(),
            final(self).candidates == old(self).candidates,
            final(self).value_type == old(self).value_type,
            final(self).previous_values@ == flatten(values.deep_view()),
    {
        let mut new_values: Vec<u8> = Vec::new();
        let n = values.len();
        for i in 0..n
            invariant
                n == values@.len(),
                new_values@ == flatten(values.deep_view().take(i as int)),
        {
            let ghost before = values.deep_view().take(i as int);
            new_values.extend_from_slice(values[i].as_slice());
            proof {
                let after = values.deep_view().take(i + 1);
                assert(after.drop_last() =~= before);
                assert(after.last() == values@[i as int]@);
            }
        }
        assert(values.deep_view().take(n as int) =~= values.deep_view());
        proof {
            let vs = values.deep_view();
            assert forall|i: int| 0 <= i < vs.len() implies (#[trigger] vs[i]).len()
                == self.value_type.spec_size() by {
                assert(vs[i] == values@[i]@);
            }
            lemma_flatten_len(vs, self.value_type.spec_size());
        }
        self.previous_values = new_values;
    }

    /// Whether the value in `curr` compares above (`increased`) or below
    /// the one in `prev`, read as 32-bit integers or as IEEE 754 floats of
    /// the session's type; other types never compare.
    pub fn compare_numerical(&self, prev: &[u8], curr: &[u8], increased: bool) -> (r: bool)
        ensures
            r == numeric_change(self.value_type, prev@, curr@, increased),
    {
        match self.value_type {
            ValueType::Int32 => {
                let p = signed32(word_of(prev, 4));
                let c = signed32(word_of(curr, 4));
                if increased {
                    c > p
                } else {
                    c < p
                }
            },
            ValueType::Float32 => {
                let p = word_of(prev, 4);
                let c = word_of(curr, 4);
                if increased {
                    f32_less_exec(p, c)
                } else {
                    f32_less_exec(c, p)
                }
            },
            ValueType::Float64 => {
                let p = word_of(prev, 8);
                let c = word_of(curr, 8);
                if increased {
                    f64_less_exec(p, c)
                } else {
                    f64_less_exec(c, p)
                }
            },
            _ => false,
        }
    }

    /// Filters the candidates by the operation. `reads[i]` holds the value
    /// read now at candidate `i`, or `None` where the read failed; the
    /// candidates past the end of `reads` (a pass that was cancelled) are
    /// dropped. The kept candidates remember the values read now.
    pub fn filter(
        &mut self,
        op: ScanOperation,
        target_val: Option<Vec<u8>>,
        reads: &Vec<Option<Vec<u8>>>,
    )
        requires
            old(self).wf(),
            reads@.len() <= old(self).candidates@.len(),
            forall|i: int| 0 <= i < reads@.len() ==> (#[trigger] reads@[i] matches Some(b) ==> b@.len()
                == old(self).value_type.spec_size()),
        ensures
            final(self).wf(),
            final(self).value_type == old(self).value_type,
            (final(self).candidates@, final(self).previous_values@) == filtered(
                old(self).candidates@,
                old(self).previous_values@,
                old(self).value_type,
                op,
                target_val.deep_view(),
                reads.deep_view(),
                reads@.len(),
            ),
    {
        let size = self.value_type.size();
        let ghost target = target_val.deep_view();
        let ghost rv = reads.deep_view();
        let mut filtered_candidates: Vec<usize> = Vec::new();
        let mut filtered_values: Vec<u8> = Vec::new();
        let n = reads.len();
        let plen = self.previous_values.len();
        for idx in 0..n
            invariant
                plen == self.previous_values@.len(),
                n == reads@.len(),
                n <= self.candidates@.len(),
                self.wf(),
                size == self.value_type.spec_size(),
                rv == reads.deep_view(),
                target == target_val.deep_view(),
                forall|i: int| 0 <= i < reads@.len() ==> (#[trigger] reads@[i] matches Some(b)
                    ==> b@.len() == self.value_type.spec_size()),
                (filtered_candidates@, filtered_values@) == filtered(
                    self.candidates@,
                    self.previous_values@,
                    self.value_type,
                    op,
                    target,
                    rv,
                    idx as nat,
                ),
                filtered_values@.len() == filtered_candidates@.len() * size,
        {
            let addr = self.candidates[idx];
            proof {
                lemma_slot_in_bounds(idx as int, self.candidates@.len() as int, size as int);
            }
            let prev_start = idx * size;
            let prev_bytes = slice_range(self.previous_values.as_slice(), prev_start, prev_start + size);
            match &reads[idx] {
                None => {},
                Some(curr_bytes) => {
                    proof {
                        assert(rv[idx as int] == Some(curr_bytes@));
                    }
                    let matched = match op {
                        ScanOperation::ExactValue => {
                            match &target_val {
                                Some(t) => {
                                    assert(t.deep_view() =~= t@);
                                    bytes_equal(curr_bytes.as_slice(), t.as_slice())
                                },
                                None => false,
                            }
                        },
                        ScanOperation::Unchanged => bytes_equal(curr_bytes.as_slice(), prev_bytes),
                        ScanOperation::Changed => !bytes_equal(curr_bytes.as_slice(), prev_bytes),
                        ScanOperation::Increased => self.compare_numerical(
                            prev_bytes,
                            curr_bytes.as_slice(),
                            true,
                        ),
                        ScanOperation::Decreased => self.compare_numerical(
                            prev_bytes,
                            curr_bytes.as_slice(),
                            false,
                        ),
                        _ => false,
                    };
                    proof {
                        assert(prev_bytes@ == slot(
                            self.previous_values@,
                            self.value_type.spec_size(),
                            idx as int,
                        ));
                        assert(matched == passes(self.value_type, op, target, prev_bytes@, curr_bytes@));
                    }
                    if matched {
                        filtered_candidates.push(addr);
                        filtered_values.extend_from_slice(curr_bytes.as_slice());
                        assert(filtered_values@.len() == filtered_candidates@.len() * size) by (
                        nonlinear_arith)
                            requires
                                filtered_values@.len() == (filtered_candidates@.len() - 1) * size
                                    + size,
                        ;
                    }
                },
            }
        }
        self.candidates = filtered_candidates;
        self.previous_values = filtered_values;
    }
}

/// The bytes `b[start..end]`.
fn slice_range(b: &[u8], start: usize, end: usize) -> (r: &[u8])
    requires
        start <= end <= b@.len(),
    ensures
        r@ == b@.subrange(start as int, end as int),
{
    vstd::slice::slice_subrange(b, start, end)
}

/// Whether two byte strings are equal.
fn bytes_equal(a: &[u8], b: &[u8]) -> (r: bool)
    ensures
        r == (a@ == b@),
{
    if a.len() != b.len() {
        return false;
    }
    let n = a.len();
    for i in 0..n
        invariant
            n == a@.len(),
            n == b@.len(),
            forall|k: int| 0 <= k < i ==> a@[k] == b@[k],
    {
        if a[i] != b[i] {
            return false;
        }
    }
    assert(a@ =~= b@);
    true
}

/// The little-endian word of `width` bytes in `b`, or zero when `b` has
/// another length.
fn word_of(b: &[u8], width: usize) -> (r: u64)
    requires
        width <= 8,
    ensures
        r == word(b@, width as nat),
        width == 4 ==> r < 0x1_0000_0000,
{
    proof {
        crate::encoding::lemma_le_value_bound(b@);
        crate::encoding::lemma_pow256_values();
    }
    if b.len() == width {
        read_le(b)
    } else {
        0
    }
}

/// The two's-complement value of a 32-bit word.
fn signed32(w: u64) -> (r: i64)
    requires
        w < 0x1_0000_0000,
    ensures
        r == i32_of(w as nat),
{
    if w < 0x8000_0000 {
        w as i64
    } else {
        (w as i64) - 0x1_0000_0000
    }
}

/// IEEE 754 `<` on two binary32 bit patterns.
fn f32_less_exec(a: u64, b: u64) -> (r: bool)
    requires
        a < 0x1_0000_0000,
        b < 0x1_0000_0000,
    ensures
        r == f32_less(a as nat, b as nat),
{
    let a_nan = a % 0x8000_0000 > 0x7F80_0000;
    let b_nan = b % 0x8000_0000 > 0x7F80_0000;
    let ka: i64 = if a < 0x8000_0000 {
        a as i64
    } else {
        -((a - 0x8000_0000) as i64)
    };
    let kb: i64 = if b < 0x8000_0000 {
        b as i64
    } else {
        -((b - 0x8000_0000) as i64)
    };
    !a_nan && !b_nan && ka < kb
}

/// IEEE 754 `<` on two binary64 bit patterns.
fn f64_less_exec(a: u64, b: u64) -> (r: bool)
    ensures
        r == f64_less(a as nat, b as nat),
{
    let a_nan = a % 0x8000_0000_0000_0000 > 0x7FF0_0000_0000_0000;
    let b_nan = b % 0x8000_0000_0000_0000 > 0x7FF0_0000_0000_0000;
    let ka: i128 = if a < 0x8000_0000_0000_0000 {
        a as i128
    } else {
        -((a - 0x8000_0000_0000_0000) as i128)
    };
    let kb: i128 = if b < 0x8000_0000_0000_0000 {
        b as i128
    } else {
        -((b - 0x8000_0000_0000_0000) as i128)
    };
    !a_nan && !b_nan && ka < kb
}

/// A value increased from `prev` to `curr` exactly when it decreased from
/// `curr` to `prev`.
pub proof fn lemma_increase_is_reverse_decrease(vt: ValueType, prev: Seq<u8>, curr: Seq<u8>)
    ensures
        numeric_change(vt, prev, curr, true) == numeric_change(vt, curr, prev, false),
{
}

/// No value both increased and decreased.
pub proof fn lemma_not_both_directions(vt: ValueType, prev: Seq<u8>, curr: Seq<u8>)
    ensures
        !(numeric_change(vt, prev, curr, true) && numeric_change(vt, prev, curr, false)),
{
}

/// Of a candidate whose value could be read, exactly one of "unchanged" and
/// "changed" holds.
pub proof fn lemma_unchanged_or_changed(
    vt: ValueType,
    target: Option<Seq<u8>>,
    prev: Seq<u8>,
    curr: Seq<u8>,
)
    ensures
        passes(vt, ScanOperation::Unchanged, target, prev, curr) != passes(
            vt,
            ScanOperation::Changed,
            target,
            prev,
            curr,
        ),
{
}

/// The indices of the candidates that pass the operation among the first
/// `n` ones, in increasing order.
pub open spec fn kept_indices(
    previous: Seq<u8>,
    vt: ValueType,
    op: ScanOperation,
    target: Option<Seq<u8>>,
    reads: Seq<Option<Seq<u8>>>,
    n: nat,
) -> Seq<int>
    decreases n,
{
    if n == 0 {
        seq![]
    } else {
        let i = n - 1;
        let rest = kept_indices(previous, vt, op, target, reads, i as nat);
        match reads[i] {
            Some(curr) => if passes(vt, op, target, slot(previous, vt.spec_size(), i), curr) {
                rest.push(i)
            } else {
                rest
            },
            None => rest,
        }
    }
}

/// A filter keeps some of the candidates, in their order: the candidates
/// left are those at strictly increasing indices among the first `n`, each
/// with the value just read at its index as its new recorded value.
pub proof fn lemma_filter_keeps_subsequence(
    candidates: Seq<usize>,
    previous: Seq<u8>,
    vt: ValueType,
    op: ScanOperation,
    target: Option<Seq<u8>>,
    reads: Seq<Option<Seq<u8>>>,
    n: nat,
)
    requires
        n <= reads.len(),
        n <= candidates.len(),
        forall|i: int| 0 <= i < reads.len() ==> (#[trigger] reads[i] matches Some(b) ==> b.len()
            == vt.spec_size()),
    ensures
        ({
            let (kept, values) = filtered(candidates, previous, vt, op, target, reads, n);
            let idx = kept_indices(previous, vt, op, target, reads, n);
            &&& kept.len() == idx.len()
            &&& idx.len() <= n
            &&& values.len() == kept.len() * vt.spec_size()
            &&& forall|k: int| 0 <= k < idx.len() ==> 0 <= #[trigger] idx[k] < n && kept[k]
                == candidates[idx[k]]
            &&& forall|k: int, l: int| 0 <= k < l < idx.len() ==> #[trigger] idx[k] < #[trigger] idx[l]
            &&& forall|k: int| 0 <= k < idx.len() ==> reads[#[trigger] idx[k]] == Some(
                slot(values, vt.spec_size(), k),
            )
        }),
    decreases n,
{
    if n > 0 {
        let i = n - 1;
        lemma_filter_keeps_subsequence(candidates, previous, vt, op, target, reads, i as nat);
        let (c, v) = filtered(candidates, previous, vt, op, target, reads, i as nat);
        let rest = kept_indices(previous, vt, op, target, reads, i as nat);
        let (kept, values) = filtered(candidates, previous, vt, op, target, reads, n);
        let idx = kept_indices(previous, vt, op, target, reads, n);
        match reads[i as int] {
            Some(curr) => {
                if passes(vt, op, target, slot(previous, vt.spec_size(), i as int), curr) {
                    assert(kept == c.push(candidates[i as int]));
                    assert(idx == rest.push(i as int));
                    assert(values.len() == kept.len() * vt.spec_size()) by (nonlinear_arith)
                        requires
                            values.len() == v.len() + vt.spec_size(),
                            v.len() == c.len() * vt.spec_size(),
                            kept.len() == c.len() + 1,
                    ;
                    assert forall|k: int| 0 <= k < idx.len() implies 0 <= #[trigger] idx[k] < n
                        && kept[k] == candidates[idx[k]] by {
                        if k < rest.len() {
                            assert(idx[k] == rest[k]);
                        }
                    }
                    assert forall|k: int, l: int| 0 <= k < l < idx.len() implies #[trigger] idx[k]
                        < #[trigger] idx[l] by {
                        if l < rest.len() {
                            assert(idx[k] == rest[k] && idx[l] == rest[l]);
                        } else {
                            assert(idx[k] == rest[k]);
                        }
                    }
                    let size = vt.spec_size();
                    assert forall|k: int| 0 <= k < idx.len() implies reads[#[trigger] idx[k]]
                        == Some(slot(values, size, k)) by {
                        lemma_slot_in_bounds(k, kept.len() as int, size as int);
                        if k < rest.len() {
                            assert(idx[k] == rest[k]);
                            lemma_slot_in_bounds(k, c.len() as int, size as int);
                            assert(slot(values, size, k) =~= slot(v, size, k));
                        } else {
                            assert(k == c.len());
                            assert(slot(values, size, k) =~= curr);
                        }
                    }
                }
            },
            None => {},
        }
    }
}


/// The direction filters compare the value read now with the value
/// recorded before, decoded from their little-endian bytes: 32-bit
/// integers as signed numbers, floats by the IEEE 754 order (no NaN ever
/// compares). "Decreased" keeps a candidate exactly when its value went
/// down, "Increased" exactly when it went up; other types never pass.
pub proof fn lemma_direction_filters_compare_values(
    vt: ValueType,
    target: Option<Seq<u8>>,
    prev: Seq<u8>,
    curr: Seq<u8>,
)
    requires
        prev.len() == vt.spec_size(),
        curr.len() == vt.spec_size(),
    ensures
        vt == ValueType::Int32 ==> {
            &&& passes(vt, ScanOperation::Decreased, target, prev, curr) <==> i32_of(le_value(curr))
                < i32_of(le_value(prev))
            &&& passes(vt, ScanOperation::Increased, target, prev, curr) <==> i32_of(le_value(curr))
                > i32_of(le_value(prev))
        },
        vt == ValueType::Float32 ==> {
            &&& passes(vt, ScanOperation::Decreased, target, prev, curr) <==> f32_less(
                le_value(curr),
                le_value(prev),
            )
            &&& passes(vt, ScanOperation::Increased, target, prev, curr) <==> f32_less(
                le_value(prev),
                le_value(curr),
            )
        },
        vt == ValueType::Float64 ==> {
            &&& passes(vt, ScanOperation::Decreased, target, prev, curr) <==> f64_less(
                le_value(curr),
                le_value(prev),
            )
            &&& passes(vt, ScanOperation::Increased, target, prev, curr) <==> f64_less(
                le_value(prev),
                le_value(curr),
            )
        },
        vt != ValueType::Int32 && vt != ValueType::Float32 && vt != ValueType::Float64 ==> !passes(
            vt,
            ScanOperation::Decreased,
            target,
            prev,
            curr,
        ) && !passes(vt, ScanOperation::Increased, target, prev, curr),
{
}


/// "Unchanged" keeps a candidate exactly when the bytes read now are the
/// bytes recorded before, "Changed" exactly when they differ, and "Exact
/// value" exactly when they are the target's bytes (never without a
/// target); "Bigger than" and "Smaller than" keep nothing.
pub proof fn lemma_byte_filters_compare_bytes(
    vt: ValueType,
    target: Option<Seq<u8>>,
    prev: Seq<u8>,
    curr: Seq<u8>,
)
    ensures
        passes(vt, ScanOperation::Unchanged, target, prev, curr) <==> curr =~= prev,
        passes(vt, ScanOperation::Changed, target, prev, curr) <==> !(curr =~= prev),
        passes(vt, ScanOperation::ExactValue, target, prev, curr) <==> (target is Some && curr
            =~= target.unwrap()),
        !passes(vt, ScanOperation::BiggerThan, target, prev, curr),
        !passes(vt, ScanOperation::SmallerThan, target, prev, curr),
{
}

} // verus!
