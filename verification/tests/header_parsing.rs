use accept_encoding::{Encoding, ErrorKind, Quality};
use http::header::{HeaderMap, HeaderValue, ACCEPT_ENCODING};

#[test]
fn single_encoding() {
    let mut headers = HeaderMap::new();
    headers.insert(ACCEPT_ENCODING, HeaderValue::from_str("gzip").unwrap());

    let encoding = accept_encoding::parse(&headers).unwrap().unwrap();
    assert_eq!(encoding, Encoding::Gzip);
}

#[test]
fn multiple_encodings() {
    let mut headers = HeaderMap::new();
    headers.insert(
        ACCEPT_ENCODING,
        HeaderValue::from_str("gzip, deflate, br").unwrap(),
    );

    let encoding = accept_encoding::parse(&headers).unwrap().unwrap();
    assert_eq!(encoding, Encoding::Gzip);
}

#[test]
fn single_encoding_with_qval() {
    let mut headers = HeaderMap::new();
    headers.insert(
        ACCEPT_ENCODING,
        HeaderValue::from_str("deflate;q=1.0").unwrap(),
    );

    let encoding = accept_encoding::parse(&headers).unwrap().unwrap();
    assert_eq!(encoding, Encoding::Deflate);
}

#[test]
fn multiple_encodings_with_qval_1() {
    let mut headers = HeaderMap::new();
    headers.insert(
        ACCEPT_ENCODING,
        HeaderValue::from_str("deflate, gzip;q=1.0, *;q=0.5").unwrap(),
    );

    let encoding = accept_encoding::parse(&headers).unwrap().unwrap();
    assert_eq!(encoding, Encoding::Deflate);
}

#[test]
fn multiple_encodings_with_qval_2() {
    let mut headers = HeaderMap::new();
    headers.insert(
        ACCEPT_ENCODING,
        HeaderValue::from_str("gzip;q=0.5, deflate;q=1.0, *;q=0.5").unwrap(),
    );

    let encoding = accept_encoding::parse(&headers).unwrap().unwrap();
    assert_eq!(encoding, Encoding::Deflate);
}

#[test]
fn multiple_encodings_with_qval_3() {
    let mut headers = HeaderMap::new();
    headers.insert(
        ACCEPT_ENCODING,
        HeaderValue::from_str("gzip;q=0.5, deflate;q=0.75, *;q=1.0").unwrap(),
    );

    let encoding = accept_encoding::parse(&headers).unwrap();
    assert!(encoding.is_none());
}

#[test]
fn list_encodings() {
    let mut headers = HeaderMap::new();
    headers.insert(
        ACCEPT_ENCODING,
        HeaderValue::from_str("zstd;q=1.0, deflate;q=0.8, br;q=0.9").unwrap(),
    );

    let encodings = accept_encoding::encodings(&headers).unwrap();
    assert_eq!(
        encodings[0],
        (Some(Encoding::Zstd), Quality { thousandths: 1000 })
    );
    assert_eq!(
        encodings[1],
        (Some(Encoding::Deflate), Quality { thousandths: 800 })
    );
    assert_eq!(
        encodings[2],
        (Some(Encoding::Brotli), Quality { thousandths: 900 })
    );
}

#[test]
fn list_encodings_ignore_unknown() {
    let mut headers = HeaderMap::new();
    headers.insert(
        ACCEPT_ENCODING,
        HeaderValue::from_str("zstd;q=1.0, unknown;q=0.8, br;q=0.9").unwrap(),
    );

    let encodings = accept_encoding::encodings(&headers).unwrap();
    assert_eq!(encodings.len(), 2);
    assert_eq!(
        encodings[0],
        (Some(Encoding::Zstd), Quality { thousandths: 1000 })
    );
    assert_eq!(
        encodings[1],
        (Some(Encoding::Brotli), Quality { thousandths: 900 })
    );
}

#[test]
fn absent_header_is_no_preference() {
    let headers = HeaderMap::new();

    assert_eq!(accept_encoding::parse(&headers), Ok(None));
    assert_eq!(accept_encoding::encodings(&headers), Ok(vec![]));
}

#[test]
fn empty_header_value_is_no_preference() {
    let mut headers = HeaderMap::new();
    headers.insert(ACCEPT_ENCODING, HeaderValue::from_str("").unwrap());

    assert_eq!(accept_encoding::parse(&headers), Ok(None));
    assert_eq!(accept_encoding::encodings(&headers), Ok(vec![]));
}

#[test]
fn exact_one_short_circuits() {
    let mut headers = HeaderMap::new();
    headers.insert(
        ACCEPT_ENCODING,
        HeaderValue::from_str("gzip;q=0.5, deflate;q=0.9, br;q=1.0").unwrap(),
    );

    let encoding = accept_encoding::parse(&headers).unwrap().unwrap();
    assert_eq!(encoding, Encoding::Brotli);
}

#[test]
fn quality_above_one_is_hard_error() {
    let mut headers = HeaderMap::new();
    headers.insert(
        ACCEPT_ENCODING,
        HeaderValue::from_str("gzip;q=1.5").unwrap(),
    );

    assert_eq!(
        accept_encoding::parse(&headers).unwrap_err().kind(),
        ErrorKind::InvalidEncoding
    );
    assert_eq!(
        accept_encoding::encodings(&headers).unwrap_err().kind(),
        ErrorKind::InvalidEncoding
    );
}

#[test]
fn malformed_quality_is_hard_error() {
    let mut headers = HeaderMap::new();
    headers.insert(
        ACCEPT_ENCODING,
        HeaderValue::from_str("gzip;q=abc, br").unwrap(),
    );

    assert_eq!(
        accept_encoding::parse(&headers).unwrap_err().kind(),
        ErrorKind::InvalidEncoding
    );
}

#[test]
fn four_fraction_digits_are_rejected() {
    let mut headers = HeaderMap::new();
    headers.insert(
        ACCEPT_ENCODING,
        HeaderValue::from_str("gzip;q=0.5000").unwrap(),
    );

    assert_eq!(
        accept_encoding::parse(&headers).unwrap_err().kind(),
        ErrorKind::InvalidEncoding
    );
}

#[test]
fn unknown_token_keeps_its_quality_to_itself() {
    let mut headers = HeaderMap::new();
    headers.insert(
        ACCEPT_ENCODING,
        HeaderValue::from_str("unknown;q=abc, gzip").unwrap(),
    );

    let encoding = accept_encoding::parse(&headers).unwrap().unwrap();
    assert_eq!(encoding, Encoding::Gzip);
}

#[test]
fn wildcard_alone_is_no_concrete_preference() {
    let mut headers = HeaderMap::new();
    headers.insert(ACCEPT_ENCODING, HeaderValue::from_str("*").unwrap());

    assert_eq!(accept_encoding::parse(&headers), Ok(None));
    let encodings = accept_encoding::encodings(&headers).unwrap();
    assert_eq!(encodings, vec![(None, Quality { thousandths: 1000 })]);
}

#[test]
fn zero_quality_is_never_selected() {
    let mut headers = HeaderMap::new();
    headers.insert(ACCEPT_ENCODING, HeaderValue::from_str("gzip;q=0").unwrap());

    assert_eq!(accept_encoding::parse(&headers), Ok(None));
    let encodings = accept_encoding::encodings(&headers).unwrap();
    assert_eq!(
        encodings,
        vec![(Some(Encoding::Gzip), Quality { thousandths: 0 })]
    );
}

#[test]
fn whitespace_around_tokens_is_trimmed() {
    let mut headers = HeaderMap::new();
    headers.insert(
        ACCEPT_ENCODING,
        HeaderValue::from_str("\t identity ,  br;q=0.5").unwrap(),
    );

    let encoding = accept_encoding::parse(&headers).unwrap().unwrap();
    assert_eq!(encoding, Encoding::Identity);
}

#[test]
fn repeated_header_occurrences_accumulate() {
    let mut headers = HeaderMap::new();
    headers.insert(
        ACCEPT_ENCODING,
        HeaderValue::from_str("gzip;q=0.3").unwrap(),
    );
    headers.append(ACCEPT_ENCODING, HeaderValue::from_str("br;q=0.8").unwrap());

    let encodings = accept_encoding::encodings(&headers).unwrap();
    assert_eq!(
        encodings,
        vec![
            (Some(Encoding::Gzip), Quality { thousandths: 300 }),
            (Some(Encoding::Brotli), Quality { thousandths: 800 }),
        ]
    );
    let encoding = accept_encoding::parse(&headers).unwrap().unwrap();
    assert_eq!(encoding, Encoding::Brotli);
}

#[test]
fn non_ascii_header_value_is_hard_error() {
    let mut headers = HeaderMap::new();
    headers.insert(
        ACCEPT_ENCODING,
        HeaderValue::from_bytes(&[b'g', b'z', b'i', b'p', 0xFF]).unwrap(),
    );

    assert_eq!(
        accept_encoding::parse(&headers).unwrap_err().kind(),
        ErrorKind::InvalidEncoding
    );
}

#[test]
fn tolerance_boundary_at_ninety_nine() {
    let mut headers = HeaderMap::new();
    headers.insert(
        ACCEPT_ENCODING,
        HeaderValue::from_str("gzip;q=0.99, br").unwrap(),
    );
    let encoding = accept_encoding::parse(&headers).unwrap().unwrap();
    assert_eq!(encoding, Encoding::Gzip);

    let mut headers = HeaderMap::new();
    headers.insert(
        ACCEPT_ENCODING,
        HeaderValue::from_str("gzip;q=0.989, br").unwrap(),
    );
    let encoding = accept_encoding::parse(&headers).unwrap().unwrap();
    assert_eq!(encoding, Encoding::Brotli);
}

#[test]
fn round_trip_every_concrete_encoding() {
    let all = [
        (Encoding::Gzip, "gzip"),
        (Encoding::Deflate, "deflate"),
        (Encoding::Brotli, "br"),
        (Encoding::Zstd, "zstd"),
        (Encoding::Identity, "identity"),
    ];
    for (encoding, token) in all {
        let value = encoding.to_header_value();
        assert_eq!(value.to_str().unwrap(), token);
        assert_eq!(Encoding::parse(token), Ok(Some(encoding)));
    }
}

#[test]
fn strict_parser_rejects_unknown_tokens() {
    let err = Encoding::parse("nope").unwrap_err();
    assert_eq!(err.kind(), ErrorKind::UnknownEncoding);
    assert_eq!(err.message(), "unknown encoding token");

    assert_eq!(Encoding::parse("*"), Ok(None));
}

#[test]
fn parsing_twice_yields_identical_results() {
    let mut headers = HeaderMap::new();
    headers.insert(
        ACCEPT_ENCODING,
        HeaderValue::from_str("zstd;q=0.7, gzip;q=0.2, *;q=0.1").unwrap(),
    );

    assert_eq!(
        accept_encoding::parse(&headers),
        accept_encoding::parse(&headers)
    );
    assert_eq!(
        accept_encoding::encodings(&headers),
        accept_encoding::encodings(&headers)
    );
    assert_eq!(accept_encoding::parse(&headers), Ok(Some(Encoding::Zstd)));
}
