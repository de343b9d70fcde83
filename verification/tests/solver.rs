use xcqa_chain::error::PowError;
use xcqa_chain::hash::blake3_512;
use xcqa_chain::solver::{attempt_message, judge_attempt, CpuSolver, GpuProbe, GpuSolver};
use xcqa_chain::xcqa_sig::XcqaSignature;

fn digest_of(sig: &XcqaSignature) -> [u8; 64] {
    let mut bytes = Vec::new();
    bytes.extend_from_slice(&(sig.commitment.len() as u32).to_le_bytes());
    bytes.extend_from_slice(&sig.commitment);
    bytes.extend_from_slice(&(sig.response.len() as u32).to_le_bytes());
    bytes.extend_from_slice(&sig.response);
    blake3_512(&bytes)
}

#[test]
fn attempt_message_is_header_then_nonce() {
    let msg = attempt_message(b"header", &[7u8; 32]);
    assert_eq!(&msg[..6], b"header");
    assert_eq!(&msg[6..], &[7u8; 32]);
    assert_eq!(attempt_message(b"", &[1u8; 32]), vec![1u8; 32]);
}

#[test]
fn signature_bytes_are_length_prefixed() {
    let sig = XcqaSignature { commitment: vec![1, 2, 3], response: vec![9] };
    assert_eq!(sig.to_bytes(), vec![3, 0, 0, 0, 1, 2, 3, 1, 0, 0, 0, 9]);
    assert!(sig.fits_wire());
}

#[test]
fn attempts_are_judged_by_their_digest() {
    // search a few candidates for one whose digest starts with a zero byte
    let mut found = None;
    let mut missed = None;
    for i in 0u32..5000 {
        let sig = XcqaSignature { commitment: i.to_le_bytes().to_vec(), response: vec![] };
        if digest_of(&sig)[0] == 0 {
            found.get_or_insert(sig);
        } else {
            missed.get_or_insert(sig);
        }
        if found.is_some() && missed.is_some() {
            break;
        }
    }
    let found = found.unwrap();
    let missed = missed.unwrap();
    let zeros = digest_of(&found).iter().take_while(|&&b| b == 0).count() as u8;
    let (sig, nonce) = judge_attempt(found.clone(), [4u8; 32], zeros).unwrap();
    assert_eq!(sig.commitment, found.commitment);
    assert_eq!(nonce, [4u8; 32]);
    assert!(judge_attempt(found.clone(), [4u8; 32], zeros + 1).is_none());
    assert!(judge_attempt(missed.clone(), [4u8; 32], 1).is_none());
    assert!(judge_attempt(missed, [4u8; 32], 0).is_some());
}

#[test]
fn cpu_solver_keeps_its_layers_and_draws_nonces() {
    let solver = CpuSolver::new(8);
    assert_eq!(solver.layer_count(), 8);
    let mut rng = rand::rng();
    assert_ne!(solver.fresh_nonce(&mut rng), solver.fresh_nonce(&mut rng));
}

#[test]
fn gpu_solver_without_support() {
    match GpuSolver::new(8, 2048) {
        Err(PowError::GpuNotAvailable(why)) => assert_eq!(why, "GPU feature not enabled"),
        _ => panic!("a solver without a device"),
    }
}

#[test]
fn gpu_solver_from_probe() {
    let mb = 1024 * 1024;
    assert_eq!(GpuSolver::from_probe(8, 2048, GpuProbe::TotalMemory(2048 * mb)).unwrap().layer_count(), 8);
    assert!(GpuSolver::from_probe(8, 0, GpuProbe::TotalMemory(0)).is_ok());
    match GpuSolver::from_probe(8, 2048, GpuProbe::TotalMemory(2048 * mb - 1)) {
        Err(PowError::InsufficientVram { required, available }) => {
            assert_eq!((required, available), (2048, 2047));
        }
        _ => panic!("too little memory accepted"),
    }
    match GpuSolver::from_probe(8, 1, GpuProbe::NoDevice("no driver".to_string())) {
        Err(PowError::GpuNotAvailable(why)) => assert_eq!(why, "CUDA device not found: no driver"),
        _ => panic!("a solver without a device"),
    }
    match GpuSolver::from_probe(8, 1, GpuProbe::QueryFailed("busy".to_string())) {
        Err(PowError::GpuNotAvailable(why)) => assert_eq!(why, "Failed to query VRAM: busy"),
        _ => panic!("a solver without a memory reading"),
    }
    match GpuSolver::from_probe(8, 1, GpuProbe::Disabled) {
        Err(PowError::GpuNotAvailable(why)) => assert_eq!(why, "GPU feature not enabled"),
        _ => panic!("a solver without support"),
    }
}

#[test]
fn signatures_compare_by_their_components() {
    let a = XcqaSignature { commitment: vec![1, 2], response: vec![3] };
    let b = XcqaSignature { commitment: vec![1, 2], response: vec![3] };
    let c = XcqaSignature { commitment: vec![1, 2], response: vec![4] };
    let d = XcqaSignature { commitment: vec![1], response: vec![3] };
    assert!(a == b);
    assert!(a != c);
    assert!(a != d);
    assert!(a.clone() == a);
}
