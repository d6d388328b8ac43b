use track_extract::batch::{
    ExtractError, Extracter, ImageFile, Outcome, SuccessResp, partition_outcomes,
};

fn success(id: &str, track: &str) -> SuccessResp {
    SuccessResp { id: String::from(id), track_number: String::from(track), rect: None }
}

#[test]
fn partition_splits_outcomes_in_order() {
    let outcomes = vec![
        Outcome { id: String::from("a"), found: Some(success("a", "11111111111111")) },
        Outcome { id: String::from("b"), found: None },
        Outcome { id: String::from("c"), found: Some(success("c", "22222222222222")) },
        Outcome { id: String::from("d"), found: None },
    ];
    let r = partition_outcomes(outcomes);
    assert_eq!(r.success.len(), 2);
    assert_eq!(r.success[0].id, "a");
    assert_eq!(r.success[0].track_number, "11111111111111");
    assert_eq!(r.success[1].id, "c");
    assert_eq!(r.fail, vec![String::from("b"), String::from("d")]);
}

#[test]
fn partition_of_empty_batch_is_empty() {
    let r = partition_outcomes(vec![]);
    assert!(r.success.is_empty());
    assert!(r.fail.is_empty());
}

#[test]
fn engine_builds_without_models() {
    assert!(Extracter::new(None, None).is_ok());
}

#[test]
fn invalid_bytes_are_a_decode_error() {
    let ex = Extracter::new(None, None).unwrap();
    let file = ImageFile { id: String::from("bad"), bytes: vec![1, 2, 3, 4] };
    assert!(matches!(ex.extract_per_image(file), Err(ExtractError::Decode)));
}

#[test]
fn valid_image_without_models_is_a_recognition_error() {
    let ex = Extracter::new(None, None).unwrap();
    let img = image::RgbImage::new(16, 16);
    let mut bytes: Vec<u8> = Vec::new();
    img.write_to(&mut std::io::Cursor::new(&mut bytes), image::ImageFormat::Jpeg)
        .unwrap();
    let file = ImageFile { id: String::from("plain"), bytes };
    assert!(matches!(ex.extract_per_image(file), Err(ExtractError::Recognition)));
}

#[test]
fn extract_outcome_echoes_identifier() {
    let ex = Extracter::new(None, None).unwrap();
    let file = ImageFile { id: String::from("echo"), bytes: vec![0, 1] };
    let outcome = ex.extract_outcome(file);
    assert_eq!(outcome.id, "echo");
    assert!(outcome.found.is_none());
}

#[test]
fn pool_size_does_not_change_partitioning() {
    let ex = Extracter::new(None, None).unwrap();
    let batch = || -> Vec<ImageFile> {
        (0..500)
            .map(|i: usize| ImageFile { id: format!("img-{}", i), bytes: vec![i as u8, 0xFF] })
            .collect()
    };
    let pool8 = rayon::ThreadPoolBuilder::new().num_threads(8).build().unwrap();
    let pool1 = rayon::ThreadPoolBuilder::new().num_threads(1).build().unwrap();
    let r8 = pool8.install(|| ex.extract_track_number(batch()));
    let r1 = pool1.install(|| ex.extract_track_number(batch()));
    assert!(r8.success.is_empty());
    assert!(r1.success.is_empty());
    assert_eq!(r8.fail, r1.fail);
    assert_eq!(r8.fail.len(), 500);
}

#[test]
fn batch_puts_every_identifier_in_exactly_one_list() {
    let ex = Extracter::new(None, None).unwrap();
    let ids = ["one", "two", "three", "four", "five"];
    let images: Vec<ImageFile> = ids
        .iter()
        .map(|id| ImageFile { id: String::from(*id), bytes: vec![0xFF, 0x00] })
        .collect();
    let r = ex.extract_track_number(images);
    assert!(r.success.is_empty());
    let fail: Vec<&str> = r.fail.iter().map(|s| s.as_str()).collect();
    assert_eq!(fail, ids.to_vec());
}
