use h4_engine::differential::{DifferentialScanSession, ScanOperation};
use h4_engine::shared::ValueType;

fn session(vt: ValueType, cands: Vec<usize>, values: Vec<Vec<u8>>) -> DifferentialScanSession {
    DifferentialScanSession::new(cands, &values, vt)
}

#[test]
fn snapshot_lays_values_end_to_end() {
    let s = session(ValueType::Int16, vec![10, 20], vec![vec![1, 2], vec![3, 4]]);
    assert_eq!(s.previous_values, vec![1, 2, 3, 4]);
    assert_eq!(s.candidates, vec![10, 20]);
}

#[test]
fn unchanged_and_changed_split_the_candidates() {
    let values = vec![vec![1, 0, 0, 0], vec![2, 0, 0, 0], vec![3, 0, 0, 0]];
    let reads = vec![Some(vec![1, 0, 0, 0]), Some(vec![9, 0, 0, 0]), None];
    let mut a = session(ValueType::Int32, vec![100, 200, 300], values.clone());
    a.filter(ScanOperation::Unchanged, None, &reads);
    assert_eq!(a.candidates, vec![100]);
    let mut b = session(ValueType::Int32, vec![100, 200, 300], values);
    b.filter(ScanOperation::Changed, None, &reads);
    assert_eq!(b.candidates, vec![200]);
    assert_eq!(b.previous_values, vec![9, 0, 0, 0]);
}

#[test]
fn exact_value_needs_a_target() {
    let values = vec![vec![5], vec![6]];
    let reads = vec![Some(vec![5]), Some(vec![6])];
    let mut a = session(ValueType::Byte, vec![1, 2], values.clone());
    a.filter(ScanOperation::ExactValue, Some(vec![6]), &reads);
    assert_eq!(a.candidates, vec![2]);
    let mut b = session(ValueType::Byte, vec![1, 2], values);
    b.filter(ScanOperation::ExactValue, None, &reads);
    assert!(b.candidates.is_empty());
    assert!(b.previous_values.is_empty());
}

#[test]
fn bigger_and_smaller_than_keep_nothing() {
    let values = vec![vec![5]];
    let reads = vec![Some(vec![6])];
    for op in [ScanOperation::BiggerThan, ScanOperation::SmallerThan] {
        let mut a = session(ValueType::Byte, vec![1], values.clone());
        a.filter(op, Some(vec![6]), &reads);
        assert!(a.candidates.is_empty());
    }
}

#[test]
fn cancelled_pass_drops_unread_candidates() {
    let values = vec![vec![1], vec![1], vec![1]];
    let reads = vec![Some(vec![1])];
    let mut a = session(ValueType::Byte, vec![1, 2, 3], values);
    a.filter(ScanOperation::Unchanged, None, &reads);
    assert_eq!(a.candidates, vec![1]);
}

#[test]
fn int32_comparisons_are_signed() {
    let s = session(ValueType::Int32, vec![], vec![]);
    let minus_one = (-1i32).to_le_bytes();
    let one = 1i32.to_le_bytes();
    assert!(s.compare_numerical(&minus_one, &one, true));
    assert!(!s.compare_numerical(&minus_one, &one, false));
    assert!(s.compare_numerical(&one, &minus_one, false));
    assert!(!s.compare_numerical(&one, &one, true));
}

#[test]
fn increased_filter_on_int32() {
    let values = vec![(-5i32).to_le_bytes().to_vec(), 7i32.to_le_bytes().to_vec()];
    let reads = vec![Some(3i32.to_le_bytes().to_vec()), Some(2i32.to_le_bytes().to_vec())];
    let mut a = session(ValueType::Int32, vec![11, 22], values);
    a.filter(ScanOperation::Increased, None, &reads);
    assert_eq!(a.candidates, vec![11]);
    assert_eq!(a.previous_values, 3i32.to_le_bytes().to_vec());
}

#[test]
fn float32_comparisons_match_ieee() {
    let s = session(ValueType::Float32, vec![], vec![]);
    let samples = [0.0f32, -0.0, 1.5, -1.5, f32::INFINITY, f32::NEG_INFINITY, f32::NAN, f32::MIN_POSITIVE, -f32::MIN_POSITIVE, 1e-45, f32::MAX];
    for &p in &samples {
        for &c in &samples {
            assert_eq!(s.compare_numerical(&p.to_le_bytes(), &c.to_le_bytes(), true), c > p, "{} {}", p, c);
            assert_eq!(s.compare_numerical(&p.to_le_bytes(), &c.to_le_bytes(), false), c < p, "{} {}", p, c);
        }
    }
}

#[test]
fn float64_comparisons_match_ieee() {
    let s = session(ValueType::Float64, vec![], vec![]);
    let samples = [0.0f64, -0.0, 2.25, -2.25, f64::INFINITY, f64::NEG_INFINITY, f64::NAN, -f64::NAN, 5e-324, f64::MAX];
    for &p in &samples {
        for &c in &samples {
            assert_eq!(s.compare_numerical(&p.to_le_bytes(), &c.to_le_bytes(), true), c > p, "{} {}", p, c);
            assert_eq!(s.compare_numerical(&p.to_le_bytes(), &c.to_le_bytes(), false), c < p, "{} {}", p, c);
        }
    }
}

#[test]
fn other_types_never_compare() {
    let s = session(ValueType::Int64, vec![], vec![]);
    assert!(!s.compare_numerical(&[0; 8], &[1; 8], true));
    let b = session(ValueType::Byte, vec![], vec![]);
    assert!(!b.compare_numerical(&[0], &[1], true));
}

#[test]
fn wrong_length_values_read_as_zero() {
    let s = session(ValueType::Int32, vec![], vec![]);
    assert!(s.compare_numerical(&[1, 2], &1i32.to_le_bytes(), true));
}

#[test]
fn value_sizes() {
    assert_eq!(ValueType::Byte.size(), 1);
    assert_eq!(ValueType::Int16.size(), 2);
    assert_eq!(ValueType::Float64.size(), 8);
    assert_eq!(ValueType::AOB.size(), 1);
}
