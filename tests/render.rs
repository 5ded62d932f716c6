use yarte::render::{write_bytes, Pieces, TemplateFixedTrait};

fn pieces() -> Pieces {
    Pieces { parts: vec!["foo".to_string(), "ñ".to_string(), "bar".to_string()] }
}

#[test]
fn buffered_render_joins_pieces() {
    assert_eq!(pieces().render(), "fooñbar");
}

#[test]
fn fixed_buffer_too_small_fails_and_clears() {
    let expected = pieces().render();
    for cap in 0..expected.len() {
        let mut buf = vec![7u8; cap];
        assert_eq!(pieces().render_into(&mut buf), None, "capacity {}", cap);
        assert!(buf.iter().all(|b| *b == 0));
    }
}

#[test]
fn fixed_buffer_large_enough_matches_buffered() {
    let expected = pieces().render();
    let n = expected.len();
    assert_eq!(n, 8);
    for cap in n..n + 4 {
        let mut buf = vec![7u8; cap];
        assert_eq!(pieces().call(&mut buf), Some(n));
        assert_eq!(&buf[..n], expected.as_bytes());
        assert!(buf[n..].iter().all(|b| *b == 7));
    }
}

#[test]
fn empty_render_fits_anywhere() {
    let p = Pieces { parts: vec![] };
    let mut buf: Vec<u8> = vec![];
    assert_eq!(p.render_into(&mut buf), Some(0));
    assert_eq!(p.render(), "");
}

#[test]
fn write_bytes_checks_room() {
    let mut buf = [0u8; 5];
    assert_eq!(write_bytes(&mut buf, 1, b"abc"), Some(4));
    assert_eq!(&buf, b"\0abc\0");
    assert_eq!(write_bytes(&mut buf, 3, b"xyz"), None);
    assert_eq!(&buf, b"\0abc\0");
}
