use mutsig::catalog::{CatalogError, SignatureCatalog};
use mutsig::category::{classify, MutationCategory, Unclassifiable, Variant, NUM_CATEGORIES};
use mutsig::cohort::{passes_burden_gate, plan_cohort, CohortReport, SkipReason, SkippedSample};
use mutsig::fit::{Contribution, FitSession, FitStep, WEIGHT_SCALE};
use mutsig::matrix::{Observation, SampleMatrixBuilder, SampleVector};
use mutsig::split::{header_line, split_record};

fn variant(reference: &str, alternate: &str, before: u8, after: u8) -> Variant {
    Variant {
        chromosome: String::from("chr1"),
        position: 1000,
        reference: reference.as_bytes().to_vec(),
        alternate: alternate.as_bytes().to_vec(),
        before,
        after,
    }
}

fn all_labels() -> Vec<Vec<u8>> {
    (0..NUM_CATEGORIES).map(|i| MutationCategory { index: i }.label()).collect()
}

fn uniform_row() -> Vec<i64> {
    // 96 * 10_416_666 = 999_999_936, within the tolerance of one.
    vec![10_416_666; NUM_CATEGORIES]
}

#[test]
fn classify_pyrimidine_reference() {
    let c = classify(&variant("C", "T", b'A', b'G')).unwrap();
    assert_eq!(c.index, 34);
    assert_eq!(c.label(), b"A[C>T]G".to_vec());
}

#[test]
fn classify_purine_reference_uses_opposite_strand() {
    // G>A in C_T is C>T in A_G read on the other strand.
    let c = classify(&variant("G", "A", b'C', b'T')).unwrap();
    assert_eq!(c.index, 34);
}

#[test]
fn classify_reverse_complement_agrees() {
    for r in [b'A', b'C', b'G', b'T'] {
        for a in [b'A', b'C', b'G', b'T'] {
            if a == r {
                continue;
            }
            for b in [b'A', b'C', b'G', b'T'] {
                for f in [b'A', b'C', b'G', b'T'] {
                    let v = Variant {
                        chromosome: String::from("chr2"),
                        position: 7,
                        reference: vec![r],
                        alternate: vec![a],
                        before: b,
                        after: f,
                    };
                    let c1 = classify(&v).unwrap();
                    let c2 = classify(&v.reverse_complement()).unwrap();
                    assert_eq!(c1, c2);
                    assert!(c1.index < NUM_CATEGORIES);
                }
            }
        }
    }
}

#[test]
fn classify_first_and_last_categories() {
    assert_eq!(classify(&variant("C", "A", b'A', b'A')).unwrap().index, 0);
    assert_eq!(classify(&variant("T", "G", b'T', b'T')).unwrap().index, 95);
}

#[test]
fn classify_rejections() {
    assert_eq!(classify(&variant("C", "A,T", b'A', b'A')), Err(Unclassifiable::MultiAllelic));
    assert_eq!(classify(&variant("CA", "T", b'A', b'A')), Err(Unclassifiable::NotSingleBase));
    assert_eq!(classify(&variant("C", "", b'A', b'A')), Err(Unclassifiable::NotSingleBase));
    assert_eq!(classify(&variant("N", "T", b'A', b'A')), Err(Unclassifiable::AmbiguousReference));
    assert_eq!(classify(&variant("C", "C", b'A', b'A')), Err(Unclassifiable::InvalidAlternate));
    assert_eq!(classify(&variant("C", "N", b'A', b'A')), Err(Unclassifiable::InvalidAlternate));
    assert_eq!(classify(&variant("C", "T", b'N', b'A')), Err(Unclassifiable::InvalidContext));
}

#[test]
fn reverse_complement_of_variant() {
    let v = variant("C", "T", b'A', b'G').reverse_complement();
    assert_eq!(v.reference, b"G".to_vec());
    assert_eq!(v.alternate, b"A".to_vec());
    assert_eq!(v.before, b'C');
    assert_eq!(v.after, b'T');
    assert_eq!(v.position, 1000);
}

#[test]
fn labels_round_trip() {
    for i in 0..NUM_CATEGORIES {
        let l = MutationCategory { index: i }.label();
        assert_eq!(MutationCategory::from_label(&l), Some(MutationCategory { index: i }));
    }
    assert_eq!(MutationCategory { index: 0 }.label(), b"A[C>A]A".to_vec());
    assert_eq!(MutationCategory::from_label(&b"A[G>A]A".to_vec()), None);
    assert_eq!(MutationCategory::from_label(&b"A[C>C]A".to_vec()), None);
    assert_eq!(MutationCategory::from_label(&b"A[C>A]".to_vec()), None);
}

#[test]
fn builder_counts_and_skips() {
    let mut b = SampleMatrixBuilder::new();
    let s0 = b.add_sample(String::from("tumour1"));
    let s1 = b.add_sample(String::from("tumour2"));
    assert_eq!(b.observe(s0, &variant("C", "T", b'A', b'G')), Observation::Counted(MutationCategory { index: 34 }));
    assert_eq!(b.observe(s0, &variant("G", "A", b'C', b'T')), Observation::Counted(MutationCategory { index: 34 }));
    assert_eq!(b.observe(s0, &variant("A", "AT", b'C', b'T')), Observation::Skipped(Unclassifiable::NotSingleBase));
    let v = b.finalize();
    assert_eq!(v.len(), 2);
    assert_eq!(v[0].name(), "tumour1");
    assert_eq!(v[0].counts()[34], 2);
    assert_eq!(v[0].burden(), 2);
    assert_eq!(v[0].skipped(), 1);
    assert_eq!(v[s1].counts().len(), NUM_CATEGORIES);
    assert_eq!(v[s1].burden(), 0);
    assert!(v[s1].counts().iter().all(|&c| c == 0));
}

#[test]
fn sample_vector_burden_is_sum() {
    let v = SampleVector::new(String::from("s"), vec![3, 3, 3, 3]);
    assert_eq!(v.burden(), 12);
    assert_eq!(v.skipped(), 0);
}

#[test]
fn catalog_accepts_distributions() {
    let cat = SignatureCatalog::load(
        vec![String::from("SBS1"), String::from("SBS5")],
        &all_labels(),
        vec![uniform_row(), uniform_row()],
    )
    .unwrap();
    assert_eq!(cat.len(), 2);
    assert_eq!(cat.name(1), "SBS5");
    assert_eq!(cat.row(0).len(), NUM_CATEGORIES);
}

#[test]
fn catalog_reorders_columns() {
    let mut labels = all_labels();
    labels.reverse();
    let mut row = vec![0i64; NUM_CATEGORIES];
    row[0] = 1_000_000_000; // column 0 now holds the last category
    let cat = SignatureCatalog::load(vec![String::from("S")], &labels, vec![row]).unwrap();
    assert_eq!(cat.row(0)[NUM_CATEGORIES - 1], 1_000_000_000);
    assert_eq!(cat.row(0)[0], 0);
}

#[test]
fn catalog_rejects_malformed_rows() {
    let mut negative = uniform_row();
    negative[0] = -1;
    negative[1] += 1;
    assert_eq!(
        SignatureCatalog::load(vec![String::from("S")], &all_labels(), vec![negative]).err(),
        Some(CatalogError::MalformedSignatureCatalog)
    );
    let mut off = uniform_row();
    off[5] += 2_000;
    assert_eq!(
        SignatureCatalog::load(vec![String::from("S")], &all_labels(), vec![off]).err(),
        Some(CatalogError::MalformedSignatureCatalog)
    );
    assert_eq!(
        SignatureCatalog::load(vec![String::from("S")], &all_labels(), vec![vec![1_000_000_000]]).err(),
        Some(CatalogError::MalformedSignatureCatalog)
    );
    assert_eq!(
        SignatureCatalog::load(vec![], &all_labels(), vec![uniform_row()]).err(),
        Some(CatalogError::MalformedSignatureCatalog)
    );
}

#[test]
fn catalog_rejects_unreconciled_columns() {
    let mut dup = all_labels();
    dup[1] = dup[0].clone();
    assert_eq!(
        SignatureCatalog::load(vec![String::from("S")], &dup, vec![uniform_row()]).err(),
        Some(CatalogError::CategoryMismatch)
    );
    let mut short = all_labels();
    short.pop();
    assert_eq!(
        SignatureCatalog::load(vec![String::from("S")], &short, vec![uniform_row()]).err(),
        Some(CatalogError::CategoryMismatch)
    );
    let mut bad = all_labels();
    bad[3] = b"C>T".to_vec();
    assert_eq!(
        SignatureCatalog::load(vec![String::from("S")], &bad, vec![uniform_row()]).err(),
        Some(CatalogError::CategoryMismatch)
    );
}

#[test]
fn fit_prunes_unused_signature_then_settles() {
    // Two signatures over four categories, S1=[0.5,0.5,0,0], S2=[0,0,0.5,0.5];
    // v=[10,10,0,0], min-contribution 1: the solver gives S1 all of it.
    let mut s = FitSession::new(2, 20, 1);
    assert_eq!(*s.active(), vec![true, true]);
    let step = s.advance(&vec![WEIGHT_SCALE, 0], 0);
    assert!(matches!(step, FitStep::Refit));
    assert_eq!(*s.active(), vec![true, false]);
    let step = s.advance(&vec![WEIGHT_SCALE, 0], 0);
    match step {
        FitStep::Stable(r) => {
            assert_eq!(r.contributions, vec![Contribution { signature: 0, count: 20 * WEIGHT_SCALE as u128 }]);
            assert_eq!(r.residual, 0);
        }
        _ => panic!("expected a stable fit"),
    }
    assert!(s.is_finished());
    assert!(s.fits() <= 2);
}

#[test]
fn fit_keeps_both_signatures_above_floor() {
    // v=[3,3,3,3], burden 12, min-contribution 4: both fit at 6.
    let mut s = FitSession::new(2, 12, 4);
    let step = s.advance(&vec![WEIGHT_SCALE / 2, WEIGHT_SCALE / 2], 7);
    match step {
        FitStep::Stable(r) => {
            assert_eq!(
                r.contributions,
                vec![
                    Contribution { signature: 0, count: 6 * WEIGHT_SCALE as u128 },
                    Contribution { signature: 1, count: 6 * WEIGHT_SCALE as u128 },
                ]
            );
            assert_eq!(r.residual, 0);
            assert_eq!(r.reconstruction_error, 7);
        }
        _ => panic!("expected a stable fit"),
    }
    assert_eq!(s.fits(), 1);
}

#[test]
fn fit_residual_balances_burden() {
    let mut s = FitSession::new(3, 100, 9);
    let step = s.advance(&vec![600_000_000, 300_000_000, 50_000_000], 0);
    assert!(matches!(step, FitStep::Refit));
    let step = s.advance(&vec![650_000_000, 320_000_000, 0], 0);
    match step {
        FitStep::Stable(r) => {
            let sum: u128 = r.contributions.iter().map(|c| c.count).sum();
            assert_eq!(sum as i128 + r.residual, 100 * WEIGHT_SCALE as i128);
            assert_eq!(r.residual, 3 * WEIGHT_SCALE as i128);
            // the signature dropped in the first round stays out
            assert!(r.contributions.iter().all(|c| c.signature != 2));
        }
        _ => panic!("expected a stable fit"),
    }
}

#[test]
fn fit_residual_slightly_negative_within_tolerance() {
    let mut s = FitSession::new(1, 10, 1);
    match s.advance(&vec![WEIGHT_SCALE + 100], 0) {
        FitStep::Stable(r) => assert_eq!(r.residual, -1_000),
        _ => panic!("expected a stable fit"),
    }
}

#[test]
fn fit_flags_negative_residual() {
    let mut s = FitSession::new(2, 10, 1);
    assert!(matches!(s.advance(&vec![WEIGHT_SCALE, WEIGHT_SCALE], 0), FitStep::NegativeResidual));
    assert!(s.is_finished());
}

#[test]
fn fit_with_nothing_above_floor() {
    let mut s = FitSession::new(3, 5, 9);
    match s.advance(&vec![300_000_000, 300_000_000, 400_000_000], 0) {
        FitStep::NoSignatureFits { residual } => assert_eq!(residual, 5 * WEIGHT_SCALE as i128),
        _ => panic!("expected no signature to fit"),
    }
    assert!(s.is_finished());
    assert_eq!(*s.active(), vec![false, false, false]);
}

#[test]
fn fit_rounds_bounded_by_signature_count() {
    let r = 4;
    let mut s = FitSession::new(r, 1000, 100);
    let mut weights = vec![400_000_000u64, 300_000_000, 200_000_000, 50_000_000];
    let mut rounds = 0;
    loop {
        rounds += 1;
        let step = s.advance(&weights, 0);
        if !matches!(step, FitStep::Refit) {
            break;
        }
        // each refit shifts weight so that one more signature falls below the floor
        let last = s.active().iter().rposition(|&a| a).unwrap();
        weights[last] = 90_000_000;
    }
    assert!(rounds <= r);
    assert_eq!(s.fits(), rounds);
}

#[test]
fn burden_gate() {
    assert!(passes_burden_gate(12, 9));
    assert!(passes_burden_gate(9, 9));
    assert!(!passes_burden_gate(4, 9));
}

#[test]
fn cohort_skips_low_burden_sample() {
    let samples = vec![
        SampleVector::new(String::from("low"), vec![1, 1, 1, 1]),
        SampleVector::new(String::from("high"), vec![3, 3, 3, 3]),
    ];
    let plan = plan_cohort(&samples, 9);
    assert_eq!(plan.admitted, vec![1]);
    assert_eq!(
        plan.skipped,
        vec![SkippedSample { sample: 0, burden: 4, reason: SkipReason::InsufficientBurden }]
    );
    let report = CohortReport::assemble(plan, vec![FitStep::NoSignatureFits { residual: 12 * WEIGHT_SCALE as i128 }]);
    assert_eq!(report.attributed.len(), 1);
    assert_eq!(report.attributed[0].sample, 1);
    assert!(matches!(report.attributed[0].outcome, FitStep::NoSignatureFits { .. }));
    assert_eq!(report.skipped.len(), 1);
}

#[test]
fn cohort_admits_at_threshold() {
    let samples = vec![SampleVector::new(String::from("a"), vec![10, 10, 0, 0])];
    let plan = plan_cohort(&samples, 5);
    assert_eq!(plan.admitted, vec![0]);
    assert!(plan.skipped.is_empty());
}

fn fields(line: &str) -> Vec<Vec<u8>> {
    line.split('\t').map(|f| f.as_bytes().to_vec()).collect()
}

#[test]
fn split_record_skips_empty_cells() {
    let f = fields("1\t100\t.\tC\tT\t50\tPASS\t.\tGT:AD\t0/1:3\t.:.\t1/1:9");
    let lines = split_record(&f);
    assert_eq!(lines.len(), 2);
    assert_eq!(lines[0].0, 0);
    assert_eq!(lines[0].1, b"1\t100\t.\tC\tT\t50\tPASS\t.\tGT:AD\t0/1:3".to_vec());
    assert_eq!(lines[1].0, 2);
    assert_eq!(lines[1].1, b"1\t100\t.\tC\tT\t50\tPASS\t.\tGT:AD\t1/1:9".to_vec());
}

#[test]
fn split_record_without_samples() {
    assert!(split_record(&fields("1\t100\t.\tC\tT\t50\tPASS\t.\tGT")).is_empty());
    assert!(split_record(&fields("1\t100")).is_empty());
}

#[test]
fn header_line_appends_sample() {
    assert_eq!(header_line(&b"#CHROM\tPOS".to_vec(), &b"NA12878".to_vec()), b"#CHROM\tPOS\tNA12878".to_vec());
}
