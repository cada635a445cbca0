use rsomics_autocorrelation::fft::{bit_reverse_permute, fft_size};
use rsomics_autocorrelation::sum::{pairwise_step, PairwiseStep, BLOCK};

#[test]
fn pairwise_steps() {
    assert_eq!(pairwise_step(0), PairwiseStep::Sequential);
    assert_eq!(pairwise_step(7), PairwiseStep::Sequential);
    assert_eq!(pairwise_step(8), PairwiseStep::Unrolled);
    assert_eq!(pairwise_step(BLOCK), PairwiseStep::Unrolled);
    assert_eq!(pairwise_step(129), PairwiseStep::Split { half: 64 });
    assert_eq!(pairwise_step(200), PairwiseStep::Split { half: 96 });
    assert_eq!(pairwise_step(1000), PairwiseStep::Split { half: 496 });
}

fn leaves(n: usize, out: &mut Vec<usize>) {
    match pairwise_step(n) {
        PairwiseStep::Split { half } => {
            leaves(half, out);
            leaves(n - half, out);
        }
        _ => out.push(n),
    }
}

#[test]
fn pairwise_leaves_cover_span() {
    for n in [1usize, 8, 128, 129, 200, 1000, 4097] {
        let mut out = Vec::new();
        leaves(n, &mut out);
        assert_eq!(out.iter().sum::<usize>(), n);
        assert!(out.iter().all(|&l| l > 0 && l <= BLOCK));
    }
}

#[test]
fn fft_padding() {
    assert_eq!(fft_size(0), 1);
    assert_eq!(fft_size(1), 4);
    assert_eq!(fft_size(3), 8);
    assert_eq!(fft_size(4), 16);
    assert_eq!(fft_size(500), 1024);
    assert_eq!(fft_size(511), 1024);
    assert_eq!(fft_size(512), 2048);
}

#[test]
fn bit_reversal_of_eight() {
    let mut v = vec![0, 1, 2, 3, 4, 5, 6, 7];
    bit_reverse_permute(&mut v);
    assert_eq!(v, vec![0, 4, 2, 6, 1, 5, 3, 7]);
}

#[test]
fn bit_reversal_is_an_involution() {
    let orig: Vec<u32> = (0..64).collect();
    let mut v = orig.clone();
    bit_reverse_permute(&mut v);
    assert_ne!(v, orig);
    bit_reverse_permute(&mut v);
    assert_eq!(v, orig);
    let mut one = vec![9u8];
    bit_reverse_permute(&mut one);
    assert_eq!(one, vec![9u8]);
}
