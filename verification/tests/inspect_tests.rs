use range_bench::error::BenchError;
use range_bench::inspect::{inspect_step, uniform_size, HeadOutcome, InspectAction};
use range_bench::upload::{next_chunk_len, size_per_object, UPLOAD_CHUNK_BYTES};

#[test]
fn found_object_is_used_directly() {
    let action = inspect_step(&HeadOutcome::Found { size: 4096 });
    assert_eq!(action, InspectAction::UseSingle { size: 4096 });
}

#[test]
fn missing_object_lists_the_prefix() {
    assert_eq!(inspect_step(&HeadOutcome::NotFound), InspectAction::ListPrefix);
}

#[test]
fn other_lookup_error_aborts() {
    assert_eq!(inspect_step(&HeadOutcome::Failed), InspectAction::Abort);
}

#[test]
fn uniform_sizes_are_accepted() {
    let sizes: Vec<u64> = vec![900, 900, 900];
    assert_eq!(uniform_size(&sizes).unwrap(), 900);
}

#[test]
fn single_object_is_uniform() {
    let sizes: Vec<u64> = vec![123];
    assert_eq!(uniform_size(&sizes).unwrap(), 123);
}

#[test]
fn empty_resolution_is_an_error() {
    let sizes: Vec<u64> = vec![];
    assert_eq!(uniform_size(&sizes).unwrap_err(), BenchError::ResolutionError);
}

#[test]
fn differing_sizes_are_a_mismatch() {
    let sizes: Vec<u64> = vec![900, 900, 901];
    assert_eq!(uniform_size(&sizes).unwrap_err(), BenchError::SizeMismatchError);
}

#[test]
fn upload_size_divides_evenly() {
    assert_eq!(size_per_object(100, 4).unwrap(), 25);
}

#[test]
fn uneven_upload_split_is_invalid() {
    assert_eq!(size_per_object(100, 3).unwrap_err(), BenchError::InvalidLayoutError);
    assert_eq!(size_per_object(100, 0).unwrap_err(), BenchError::InvalidLayoutError);
}

#[test]
fn chunks_cover_the_remainder() {
    assert_eq!(next_chunk_len(5_000_000, 0), 5_000_000);
    assert_eq!(next_chunk_len(25_000_000, 0), UPLOAD_CHUNK_BYTES);
    assert_eq!(next_chunk_len(25_000_000, 20_971_520), 4_028_480);
    assert_eq!(next_chunk_len(100, 100), 0);
}

#[test]
fn error_labels_are_stable() {
    assert_eq!(BenchError::ResolutionError.label(), "resolution error");
    assert_eq!(BenchError::SizeMismatchError.label(), "size mismatch");
    assert_eq!(BenchError::InvalidLayoutError.label(), "invalid layout");
    assert_eq!(BenchError::FetchFailure.label(), "fetch failure");
}
