use reflors::ansi::buffer::Buffer;
use reflors::error::Error;

#[test]
fn buffer_from() {
    let buffer = Buffer::from("Hello");
    let _ = buffer;
    let buffer = Buffer::from("Hello".to_string().as_str());
    let _ = buffer;
    let buffer = Buffer::from(Vec::<u8>::new());
    let _ = buffer;
}

#[test]
fn basic() {
    let b: Buffer = "Hello!".into();
    assert_eq!(b.len(), 6, "Buffer length should be 6");
    assert_eq!(b.visible_len(), Ok(6), "Buffer visible length should be 6");
    assert!(b.is_ascii(), "Buffer should be ASCII");
}

#[test]
fn ansi() {
    let b: Buffer = "\u{1b}[1;4;38;2;255;255mHello!\u{1b}[0m".into();
    assert_eq!(b.len(), 29, "Buffer length should be 29");
    assert_eq!(b.visible_len(), Ok(6), "Buffer visible length should be 6");
    assert!(b.is_ascii(), "Buffer should be ASCII");

    let b: Buffer = "\u{1b}[1;4;38;2;255;255m_Hello!_\u{1b}[0m".into();
    assert_eq!(b.len(), 31, "Buffer length should be 31");
    assert_eq!(b.visible_len(), Ok(8), "Buffer visible length should be 8");
    assert!(b.is_ascii(), "Buffer should be ASCII");
}

#[test]
fn unicode() {
    let b1: Buffer = "🤔".into();
    let b2: Buffer = "\u{1b}[1;4;38;2;255;255m🤔\u{1b}[0m".into();
    assert_eq!('🤔'.len_utf8(), 4, "🤔 should be 4 bytes");
    assert_eq!(b1.len(), 4, "Buffer length should be 4");
    assert_eq!(b1.visible_len(), Ok(4), "Buffer visible length should be 4");
    assert_eq!(b2.len(), 27, "Buffer length should be 27");
    assert_eq!(b2.visible_len(), Ok(4), "Buffer visible length should be 4");
    assert_eq!(b1.visible_len(), b2.visible_len());

    let b1: Buffer = "東京".into();
    let b2: Buffer = "\u{1b}[1;4;38;2;255;255m東京\u{1b}[0m".into();
    assert_eq!(b1.len(), 6, "Buffer length should be 6");
    assert_eq!(b1.visible_len(), Ok(6), "Buffer visible length should be 6");
    assert_eq!(b2.len(), 29, "Buffer length should be 29");
    assert_eq!(b2.visible_len(), Ok(6), "Buffer visible length should be 6");
    assert_eq!(b1.visible_len(), b2.visible_len());
}

#[test]
fn single() {
    let b2: Buffer = "\u{1b}[1;4;38;2;255;255m🤔\u{1b}[0m".into();
    assert_eq!(b2.visible_len(), Ok(4), "Buffer visible length should be 4");
    assert!(!b2.is_ascii(), "Buffer should be ASCII");
}

#[test]
#[allow(clippy::needless_range_loop)]
fn visible_len_compare() {
    let iters: usize = 1_000_000;
    let expected: usize = 124;

    // 180 total, 124 visible
    let buffer: Buffer =
        "\u{1b}[1;4;38;2;255;255mHello world, how are you? It's nice to meet ya! \u{1b}[1;4;38;2;2;255mMy name is Tony and I think we're going to have a lot of fun! Die in a fire!\u{1b}[0m"
            .into();

    let mut results_ascii = vec![0usize; iters];
    let mut results_uni = vec![0usize; iters];

    let now = std::time::Instant::now();
    for i in 0..iters {
        results_ascii[i] = buffer.visible_len_ascii().unwrap();
    }
    let elapsed_ascii = now.elapsed();
    let average_ascii = elapsed_ascii / iters as u32;

    let now = std::time::Instant::now();
    for i in 0..iters {
        results_uni[i] = buffer.visible_len_unicode().unwrap();
    }
    let elapsed_uni = now.elapsed();
    let average_uni = elapsed_uni / iters as u32;

    for (i, result) in results_ascii.iter().enumerate() {
        assert_eq!(*result, expected, "Ascii Iteration {}", i);
    }

    for (i, result) in results_uni.iter().enumerate() {
        assert_eq!(*result, expected, "  Uni Iteration {}", i);
    }

    println!("Using {} Iterations...", iters);
    println!(
        "\tAscii Version took {:?} ({:?} average)",
        elapsed_ascii, average_ascii
    );
    println!(
        "\t  Uni Version took {:?} ({:?} average)",
        elapsed_uni, average_uni
    );
}

#[test]
fn pushes_and_views() {
    let mut b = Buffer::new();
    assert!(b.is_empty());
    b.push_str("Hello");
    b.push_char(' ');
    b.push_char('東');
    assert_eq!(b.to_str(), Ok("Hello 東".to_string()));
    assert_eq!(b.to_string(), Ok("Hello 東".to_string()));
    assert_eq!(b.len(), 9);
    assert!(!b.is_empty());
    assert_eq!(b.data(), "Hello 東".as_bytes());
    let v = b.into_vec();
    assert_eq!(v, "Hello 東".as_bytes().to_vec());
}

#[test]
fn invalid_utf8_reports_decode_error() {
    let b = Buffer::from(vec![0xffu8, 0xfe, 0x41]);
    assert_eq!(b.visible_len(), Err(Error::Utf8));
    assert_eq!(b.to_str(), Err(Error::Utf8));
    assert_eq!(b.to_string(), Err(Error::Utf8));
    // The byte-wise scan does not decode and still answers.
    assert_eq!(b.visible_len_ascii(), Ok(5));
    assert_eq!(b.into_string(), Err(Error::Utf8));
}

#[test]
fn from_raw_bytes_keeps_them() {
    let b = Buffer::from(vec![1u8, 2, 3]);
    assert_eq!(b.data(), &[1u8, 2, 3]);
    assert_eq!(b.len(), 3);
}

#[test]
fn truncate_visible_keeps_styling() {
    let mut b = Buffer::from("\u{1b}[31mhello");
    assert_eq!(
        b.truncate_visible(3),
        Ok("\u{1b}[31mhel".to_string())
    );
    // The buffer itself is untouched.
    assert_eq!(b.to_str(), Ok("\u{1b}[31mhello".to_string()));
    assert_eq!(b.truncate_visible(0), Ok("\u{1b}[31m".to_string()));
    assert_eq!(b.truncate_visible(99), Ok("\u{1b}[31mhello".to_string()));
}

#[test]
fn default_and_capacity() {
    let b = Buffer::default();
    assert_eq!(b.len(), 0);
    let b = Buffer::with_capacity(16);
    assert!(b.capacity() >= 16);
    assert_eq!(b.len(), 0);
}

#[test]
fn bytes_views_round_trip() {
    let b = Buffer::from("Howdy".to_string());
    let bm = b.bytes_mut();
    assert_eq!(&bm[..], b"Howdy");
    let inner = b.into_bytes();
    assert_eq!(inner, bytes::BytesMut::from(&b"Howdy"[..]));
}
