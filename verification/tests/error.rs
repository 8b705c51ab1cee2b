use mosaic::error::{push_decimal, MosaicError};

#[test]
fn numbers_are_written_in_decimal() {
    let cases: Vec<(u64, &str)> = vec![
        (0, "0"),
        (7, "7"),
        (10, "10"),
        (42, "42"),
        (100, "100"),
        (1090, "1090"),
        (4294967295, "4294967295"),
        (u64::MAX, "18446744073709551615"),
    ];
    for (n, expected) in cases {
        let mut text = String::from("n=");
        push_decimal(&mut text, n);
        assert_eq!(text, format!("n={}", expected));
        assert_eq!(text, format!("n={}", n));
    }
}

#[test]
fn message_for_no_matching_picture_names_the_ratio() {
    let error = MosaicError::NoMatchingPicture { ratio_width: 16, ratio_height: 9 };
    assert_eq!(error.message(), "No processed pictures found with the same ratio (16/9)");
    let error = MosaicError::NoMatchingPicture { ratio_width: 4000, ratio_height: 3001 };
    assert_eq!(error.message(), "No processed pictures found with the same ratio (4000/3001)");
}

#[test]
fn messages_for_the_other_errors() {
    assert_eq!(
        MosaicError::RatioTooThin { ratio_width: 16, ratio_height: 1 }.message(),
        "The model image is too long and thin to be cut into chunks (ratio 16/1)"
    );
    assert_eq!(MosaicError::CanvasTooLarge.message(), "The mosaic would be too large");
    assert_eq!(
        MosaicError::MissingThumbnail { index: 12 }.message(),
        "The thumbnail of picture 12 is missing"
    );
    assert_eq!(
        MosaicError::TileOutOfCanvas { tile: 0 }.message(),
        "The thumbnail for tile 0 does not fit into the mosaic"
    );
}
