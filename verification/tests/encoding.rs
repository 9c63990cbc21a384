use http::header::{HeaderMap, HeaderName, HeaderValue};
use send_multipart::boundary::{boundary_from_seed, generate_random_boundary, xorshit64, BoundaryGenerator};
use send_multipart::{Error, Multipart, Part};

fn body(message: Multipart) -> String {
    String::from_utf8(message.into_bytes().to_vec()).unwrap()
}

#[test]
fn empty_message_is_closing_delimiter() {
    let message = Multipart::empty(&mut BoundaryGenerator::new()).with_boundary("XyZ");
    assert_eq!(body(message), "--XyZ--\r\n");
}

#[test]
fn text_part_exact_bytes() {
    let message = Multipart::from_parts(vec![Part::text("field", "value")], &mut BoundaryGenerator::new()).with_boundary("XyZ");
    assert_eq!(
        body(message),
        "--XyZ\r\nContent-Disposition: form-data; name=\"field\"\r\nContent-Type: text/plain; charset=utf-8\r\n\r\nvalue\r\n--XyZ--\r\n"
    );
}

#[test]
fn bytes_part_with_filename_exact_bytes() {
    let part = Part::bytes("file", &[0u8, 255u8, 13u8, 10u8]).with_filename("a.bin");
    let message = Multipart::empty(&mut BoundaryGenerator::new()).with_boundary("b").add_part(part);
    let mut expected = b"--b\r\nContent-Disposition: form-data; name=\"file\"; filename=\"a.bin\"\r\nContent-Type: application/octet-stream\r\n\r\n".to_vec();
    expected.extend_from_slice(&[0u8, 255u8, 13u8, 10u8]);
    expected.extend_from_slice(b"\r\n--b--\r\n");
    assert_eq!(message.into_bytes().to_vec(), expected);
}

#[test]
fn empty_part_has_no_content_type() {
    let message = Multipart::empty(&mut BoundaryGenerator::new()).with_boundary("q").add_part(Part::empty("n"));
    assert_eq!(
        body(message),
        "--q\r\nContent-Disposition: form-data; name=\"n\"\r\n\r\n\r\n--q--\r\n"
    );
}

#[test]
fn with_mime_replaces_media_type() {
    let part = Part::text("t", "x").with_mime(mime::TEXT_HTML.as_ref());
    let message = Multipart::empty(&mut BoundaryGenerator::new()).with_boundary("q").add_part(part);
    assert_eq!(
        body(message),
        "--q\r\nContent-Disposition: form-data; name=\"t\"\r\nContent-Type: text/html\r\n\r\nx\r\n--q--\r\n"
    );
}

#[test]
fn parts_are_written_in_order() {
    let message = Multipart::from_parts(vec![Part::empty("a"), Part::empty("b")], &mut BoundaryGenerator::new())
        .add_part(Part::empty("c"))
        .with_boundary("z");
    let text = body(message);
    let a = text.find("name=\"a\"").unwrap();
    let b = text.find("name=\"b\"").unwrap();
    let c = text.find("name=\"c\"").unwrap();
    assert!(a < b && b < c);
    assert_eq!(text.matches("--z\r\n").count(), 3);
    assert!(text.ends_with("\r\n--z--\r\n"));
}

#[test]
fn custom_header_line() {
    let part = Part::empty("n")
        .add_header(HeaderName::from_static("x-extra"), b"one")
        .unwrap();
    let message = Multipart::empty(&mut BoundaryGenerator::new()).with_boundary("q").add_part(part);
    assert_eq!(
        body(message),
        "--q\r\nContent-Disposition: form-data; name=\"n\"\r\nx-extra: one\r\n\r\n\r\n--q--\r\n"
    );
}

#[test]
fn adding_a_header_again_replaces_it() {
    let part = Part::empty("n")
        .add_header(HeaderName::from_static("x-a"), b"1")
        .unwrap()
        .add_header(HeaderName::from_static("x-b"), b"2")
        .unwrap()
        .add_header(HeaderName::from_static("x-a"), b"3")
        .unwrap();
    let message = Multipart::empty(&mut BoundaryGenerator::new()).with_boundary("q").add_part(part);
    assert_eq!(
        body(message),
        "--q\r\nContent-Disposition: form-data; name=\"n\"\r\nx-a: 3\r\nx-b: 2\r\n\r\n\r\n--q--\r\n"
    );
}

#[test]
fn invalid_header_value_is_refused() {
    let r = Part::empty("n").add_header(HeaderName::from_static("x-a"), b"a\r\nb");
    assert!(matches!(r, Err(Error::InvalidHeaderValue(_))));
    let r = Part::empty("n").add_header(HeaderName::from_static("x-a"), &[127u8]);
    assert!(matches!(r, Err(Error::InvalidHeaderValue(_))));
    let r = Part::empty("n").add_header(HeaderName::from_static("x-a"), b"tab\tand \xff ok");
    assert!(r.is_ok());
}

#[test]
fn with_headers_are_written() {
    let mut headers = HeaderMap::new();
    headers.insert(HeaderName::from_static("x-one"), HeaderValue::from_static("1"));
    headers.append(HeaderName::from_static("x-one"), HeaderValue::from_static("2"));
    let part = Part::text("t", "v").with_headers(headers);
    let message = Multipart::empty(&mut BoundaryGenerator::new()).with_boundary("q").add_part(part);
    assert_eq!(
        body(message),
        "--q\r\nContent-Disposition: form-data; name=\"t\"\r\nContent-Type: text/plain; charset=utf-8\r\nx-one: 1\r\nx-one: 2\r\n\r\nv\r\n--q--\r\n"
    );
}

#[test]
fn content_type_header_text() {
    let message = Multipart::empty(&mut BoundaryGenerator::new()).with_boundary("abc123");
    let value = message.get_content_type_header().unwrap();
    assert_eq!(value.to_str().unwrap(), "multipart/form-data; boundary=abc123");
}

#[test]
fn content_type_header_refuses_control_characters() {
    let message = Multipart::empty(&mut BoundaryGenerator::new()).with_boundary("a\nb");
    assert!(matches!(
        message.get_content_type_header(),
        Err(Error::InvalidHeaderValue(_))
    ));
    let message = Multipart::empty(&mut BoundaryGenerator::new()).with_boundary("é\tx");
    assert!(message.get_content_type_header().is_ok());
}

#[test]
fn generated_boundary_header_is_valid() {
    let message = Multipart::empty(&mut BoundaryGenerator::new());
    let value = message.get_content_type_header().unwrap();
    let text = value.to_str().unwrap();
    let boundary = text.strip_prefix("multipart/form-data; boundary=").unwrap();
    assert_eq!(boundary.len(), 64);
    assert!(boundary.chars().all(|c| c.is_ascii_digit() || ('a'..='f').contains(&c)));
}

#[test]
fn xorshift_step() {
    let mut state = 1u64;
    assert_eq!(xorshit64(&mut state), 1082269761);
    assert_eq!(state, 1082269761);
    let mut zero = 0u64;
    assert_eq!(xorshit64(&mut zero), 0);
}

#[test]
fn boundary_from_seed_one() {
    assert_eq!(
        boundary_from_seed(1),
        "0000000040822041100041060c0114419b1e842f6e862629f554f503555d8025"
    );
}

#[test]
fn random_boundaries_are_hex_and_differ() {
    let mut generator = BoundaryGenerator::new();
    let a = generate_random_boundary(&mut generator);
    let b = generate_random_boundary(&mut generator);
    assert_eq!(a.len(), 64);
    assert!(a.chars().all(|c| c.is_ascii_hexdigit() && !c.is_ascii_uppercase()));
    assert_ne!(a, b);
}

#[test]
fn body_ends_with_closing_delimiter_of_its_boundary() {
    let message = Multipart::from_parts(vec![Part::text("x", "y")], &mut BoundaryGenerator::new());
    let value = message.get_content_type_header().unwrap();
    let boundary = value
        .to_str()
        .unwrap()
        .strip_prefix("multipart/form-data; boundary=")
        .unwrap()
        .to_owned();
    let text = body(message);
    assert!(text.starts_with(&format!("--{}\r\n", boundary)));
    assert!(text.ends_with(&format!("\r\n--{}--\r\n", boundary)));
}

#[test]
fn part_head_ends_with_blank_line() {
    let part = Part::text("x", "payload");
    let message = Multipart::empty(&mut BoundaryGenerator::new()).with_boundary("k").add_part(part);
    let text = body(message);
    let at = text.find("payload").unwrap();
    assert!(text[..at].ends_with("\r\n\r\n"));
}

#[test]
fn xorshift_stays_nonzero() {
    let mut state = 1u64;
    for _ in 0..10_000 {
        assert_ne!(xorshit64(&mut state), 0);
    }
}

#[test]
fn adding_a_part_keeps_the_earlier_bytes() {
    let one = Multipart::empty(&mut BoundaryGenerator::new()).with_boundary("B").add_part(Part::text("a", "1"));
    let two = Multipart::empty(&mut BoundaryGenerator::new())
        .with_boundary("B")
        .add_part(Part::text("a", "1"))
        .add_part(Part::bytes("b", b"2"));
    let one = body(one);
    let two = body(two);
    let prefix = one.strip_suffix("--B--\r\n").unwrap();
    assert!(two.starts_with(prefix));
    assert_eq!(
        &two[prefix.len()..],
        "--B\r\nContent-Disposition: form-data; name=\"b\"\r\nContent-Type: application/octet-stream\r\n\r\n2\r\n--B--\r\n"
    );
}

#[test]
fn different_parts_give_different_bodies() {
    let a = body(Multipart::from_parts(vec![Part::text("x", "1"), Part::text("y", "2")], &mut BoundaryGenerator::new()).with_boundary("B"));
    let b = body(Multipart::from_parts(vec![Part::text("x", "12")], &mut BoundaryGenerator::new()).with_boundary("B"));
    let c = body(Multipart::from_parts(vec![Part::text("y", "2"), Part::text("x", "1")], &mut BoundaryGenerator::new()).with_boundary("B"));
    assert_ne!(a, b);
    assert_ne!(a, c);
    assert_ne!(b, c);
}

#[test]
fn header_count_follows_inserts() {
    let part = Part::empty("n");
    assert_eq!(part.header_count(), 0);
    let part = part
        .add_header(HeaderName::from_static("x-a"), b"1")
        .unwrap()
        .add_header(HeaderName::from_static("x-b"), b"2")
        .unwrap();
    assert_eq!(part.header_count(), 2);
    let part = part.add_header(HeaderName::from_static("x-a"), b"3").unwrap();
    assert_eq!(part.header_count(), 2);
    let mut headers = HeaderMap::new();
    headers.insert(HeaderName::from_static("x-one"), HeaderValue::from_static("1"));
    headers.append(HeaderName::from_static("x-one"), HeaderValue::from_static("2"));
    let part = part.with_headers(headers);
    assert_eq!(part.header_count(), 2);
    let part = part.add_header(HeaderName::from_static("x-one"), b"3").unwrap();
    assert_eq!(part.header_count(), 1);
}

#[test]
fn add_header_over_appended_values_keeps_one() {
    let mut headers = HeaderMap::new();
    headers.insert(HeaderName::from_static("x-a"), HeaderValue::from_static("1"));
    headers.append(HeaderName::from_static("x-a"), HeaderValue::from_static("2"));
    headers.insert(HeaderName::from_static("x-b"), HeaderValue::from_static("3"));
    let part = Part::empty("n")
        .with_headers(headers)
        .add_header(HeaderName::from_static("x-a"), b"9")
        .unwrap();
    let message = Multipart::empty(&mut BoundaryGenerator::new()).with_boundary("q").add_part(part);
    assert_eq!(
        body(message),
        "--q\r\nContent-Disposition: form-data; name=\"n\"\r\nx-a: 9\r\nx-b: 3\r\n\r\n\r\n--q--\r\n"
    );
}

#[test]
fn generator_continues_one_sequence() {
    let mut generator = BoundaryGenerator::from_seed(1).unwrap();
    assert_eq!(
        generate_random_boundary(&mut generator),
        "0000000040822041100041060c0114419b1e842f6e862629f554f503555d8025"
    );
    assert_eq!(
        generate_random_boundary(&mut generator),
        "860c1fb090599265f6b05302e5531801a2460108ebbd9e71c62c9fc114d9590d"
    );
    assert!(BoundaryGenerator::from_seed(0).is_none());
}

#[test]
fn messages_from_one_generator_have_different_boundaries() {
    let mut generator = BoundaryGenerator::new();
    let a = Multipart::empty(&mut generator).get_content_type_header().unwrap();
    let b = Multipart::empty(&mut generator).get_content_type_header().unwrap();
    assert_ne!(a, b);
    let mut seeded = BoundaryGenerator::from_seed(1).unwrap();
    let c = Multipart::from_parts(vec![Part::empty("x")], &mut seeded);
    assert_eq!(
        c.get_content_type_header().unwrap().to_str().unwrap(),
        "multipart/form-data; boundary=0000000040822041100041060c0114419b1e842f6e862629f554f503555d8025"
    );
    let d = Multipart::empty(&mut seeded);
    assert_eq!(
        d.get_content_type_header().unwrap().to_str().unwrap(),
        "multipart/form-data; boundary=860c1fb090599265f6b05302e5531801a2460108ebbd9e71c62c9fc114d9590d"
    );
}

#[test]
fn body_len_matches_into_bytes() {
    let message = Multipart::from_parts(
        vec![
            Part::text("a", "hello"),
            Part::bytes("b", &[1u8, 2u8, 3u8]).with_filename("f.bin"),
            Part::empty("c")
                .add_header(HeaderName::from_static("x-k"), b"v")
                .unwrap(),
        ],
        &mut BoundaryGenerator::new(),
    );
    let expected = message.body_len().unwrap();
    assert_eq!(message.into_bytes().len(), expected);
    let empty = Multipart::empty(&mut BoundaryGenerator::new()).with_boundary("xy");
    assert_eq!(empty.body_len(), Some(8));
}

#[test]
fn header_named_by_text() {
    let part = Part::empty("n")
        .add_header_str("x-extra", b"one")
        .unwrap()
        .add_header_str("content-language", b"en")
        .unwrap()
        .add_header_str("x-extra", b"two")
        .unwrap();
    let message = Multipart::empty(&mut BoundaryGenerator::new()).with_boundary("q").add_part(part);
    assert_eq!(
        body(message),
        "--q\r\nContent-Disposition: form-data; name=\"n\"\r\nx-extra: two\r\ncontent-language: en\r\n\r\n\r\n--q--\r\n"
    );
    let r = Part::empty("n").add_header_str("x-extra", b"bad\n");
    assert!(matches!(r, Err(Error::InvalidHeaderValue(_))));
}

#[test]
fn boundaries_of_one_generator_never_repeat_in_a_row() {
    let mut generator = BoundaryGenerator::from_seed(u64::MAX).unwrap();
    let mut previous = generate_random_boundary(&mut generator);
    for _ in 0..1000 {
        let next = generate_random_boundary(&mut generator);
        assert_ne!(next, previous);
        assert_ne!(next, "0".repeat(64));
        previous = next;
    }
}
