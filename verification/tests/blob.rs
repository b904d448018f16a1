use cortex::blob::{blob_from_words, words_from_blob};

#[test]
fn words_are_little_endian() {
    assert_eq!(blob_from_words(&vec![0x0403_0201]), vec![1, 2, 3, 4]);
    assert_eq!(words_from_blob(&vec![1, 2, 3, 4]), vec![0x0403_0201]);
}

#[test]
fn same_layout_as_f32_to_le_bytes() {
    let v = [1.0f32, -2.5, 0.0, 3.25];
    let words: Vec<u32> = v.iter().map(|x| x.to_bits()).collect();
    let expected: Vec<u8> = v.iter().flat_map(|x| x.to_le_bytes()).collect();
    assert_eq!(blob_from_words(&words), expected);
}

fn vectors_to_blob(vector: &[f32]) -> Vec<u8> {
    let words: Vec<u32> = vector.iter().map(|x| x.to_bits()).collect();
    blob_from_words(&words)
}

fn blob_to_vectors(blob: &[u8]) -> Vec<f32> {
    words_from_blob(&blob.to_vec()).into_iter().map(f32::from_bits).collect()
}

#[test]
fn test_vector_roundtrip() {
    let stored = vec![1.0f32, 2.0, 3.0, -1.5, 0.0];
    let blob = vectors_to_blob(&stored);
    let recovered = blob_to_vectors(&blob);
    assert_eq!(stored, recovered);
}

#[test]
fn blob_has_four_bytes_per_component() {
    assert_eq!(vectors_to_blob(&[1.0, 2.0, 3.0, -1.5, 0.0]).len(), 20);
}

#[test]
fn trailing_bytes_ignored() {
    assert_eq!(words_from_blob(&vec![1, 0, 0, 0, 9, 9]), vec![1]);
    assert!(words_from_blob(&vec![1, 2, 3]).is_empty());
}
