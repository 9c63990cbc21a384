use std::{convert::Infallible, future::ready};

use futures::executor::block_on;
use futures::stream::once;
use send_multipart::boundary::BoundaryGenerator;
use send_multipart::{Multipart, Part};

fn parse_boundary(message: &Multipart) -> String {
    let content_type = message.get_content_type_header().unwrap();
    let content_type = content_type.to_str().unwrap();
    multer::parse_boundary(content_type).unwrap()
}

fn check_empty() {
    let mut generator = BoundaryGenerator::new();
    let message = Multipart::empty(&mut generator);
    let boundary = parse_boundary(&message);

    let body = message.into_bytes();
    let body = once(ready(Ok::<_, Infallible>(body)));
    let mut parser = multer::Multipart::new(body, boundary);

    let next = block_on(parser.next_field()).unwrap();
    assert!(matches!(next, None));
}

fn check_basic() {
    let mut generator = BoundaryGenerator::new();
    let message = Multipart::from_parts(vec![
        Part::text("my_text_field", "abcd"),
        Part::bytes(
            "my_file_field",
            b"Hello world\nHello\r\nWorld\rAgain".as_slice(),
        )
        .with_mime(mime::TEXT_PLAIN.as_ref())
        .with_filename("a-text-file.txt"),
    ], &mut generator);
    let boundary = parse_boundary(&message);

    let body = message.into_bytes();
    let body = once(ready(Ok::<_, Infallible>(body)));
    let mut parser = multer::Multipart::new(body, boundary);

    let mut seen = 0;
    while let Some((idx, field)) = block_on(parser.next_field_with_idx()).unwrap() {
        if idx == 0 {
            assert_eq!(field.name(), Some("my_text_field"));
            assert_eq!(field.file_name(), None);
            assert_eq!(field.content_type(), Some(&mime::TEXT_PLAIN_UTF_8));
            assert_eq!(field.index(), 0);

            assert_eq!(block_on(field.text()).unwrap(), "abcd".to_owned());
        } else if idx == 1 {
            assert_eq!(field.name(), Some("my_file_field"));
            assert_eq!(field.file_name(), Some("a-text-file.txt"));
            assert_eq!(field.content_type(), Some(&mime::TEXT_PLAIN));
            assert_eq!(field.index(), 1);

            assert_eq!(
                block_on(field.text()).unwrap(),
                "Hello world\nHello\r\nWorld\rAgain".to_owned()
            );
        }
        seen += 1;
    }
    assert_eq!(seen, 2);
}

#[test]
fn lib_test_multipart_empty() {
    check_empty();
}

#[test]
fn lib_test_multipart_basic_with_stream() {
    check_basic();
}

#[test]
fn sync_test_multipart_empty() {
    check_empty();
}

#[test]
fn sync_test_multipart_basic_with_stream() {
    check_basic();
}
