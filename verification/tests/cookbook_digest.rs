use sim_foundation::cookbook::digest::{audio_digest, fnv1a64, fnv1a64_hex, frame_digest};



#[test]
fn audio_digest_uses_integer_rms_and_peak() {
    assert_eq!(
        audio_digest(&[3, -4]),
        "(audio-digest (samples 2) (peak 4) (rms 3))"
    );
    // Constant buffer: rms equals the magnitude.
    assert_eq!(
        audio_digest(&[-5, 5, -5, 5]),
        "(audio-digest (samples 4) (peak 5) (rms 5))"
    );
    assert_eq!(
        audio_digest(&[]),
        "(audio-digest (samples 0) (peak 0) (rms 0))"
    );
}

#[test]
fn digests_are_deterministic_across_repeated_calls() {
    let samples = [1, -2, 3, -4, 5];
    assert_eq!(audio_digest(&samples), audio_digest(&samples));
    let bytes = b"a deterministic frame";
    assert_eq!(frame_digest(bytes), frame_digest(bytes));
}

#[test]
fn frame_digest_is_content_sensitive() {
    assert_eq!(
        frame_digest(&[]),
        "(frame (bytes 0) (hash cbf29ce484222325))"
    );
    assert_eq!(frame_digest(b"abc"), frame_digest(b"abc"));
    assert_ne!(frame_digest(b"abc"), frame_digest(b"abd"));
    assert!(frame_digest(b"abc").starts_with("(frame (bytes 3) (hash "));
}

#[test]
fn fnv1a64_uses_standard_basis_and_is_content_sensitive() {
    assert_eq!(fnv1a64(&[]), 0xcbf2_9ce4_8422_2325);
    assert_eq!(fnv1a64_hex(&[]), "cbf29ce484222325");
    assert_eq!(fnv1a64_hex(b"abc"), "e71fa2190541574b");
    assert_eq!(fnv1a64(b"abc"), fnv1a64(b"abc"));
    assert_ne!(fnv1a64(b"abc"), fnv1a64(b"abd"));
}
