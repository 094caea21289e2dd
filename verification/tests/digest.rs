use s3_object_storage::digest::{compute_md5, md5_of, Md5Stream, MD5_CHUNK_SIZE};

fn hex(digest: &[u8; 16]) -> String {
    digest.iter().map(|byte| format!("{:02x}", byte)).collect()
}

#[test]
fn test_md5_calc() {
    let data = (0..1_500_000).map(|el| el as u8).collect::<Vec<_>>();
    let md5 = compute_md5(data.as_slice());
    assert_eq!(md5, md5::compute(data).0);
}

#[test]
fn test_md5_of_known_contents() {
    assert_eq!(hex(&compute_md5(b"")), "d41d8cd98f00b204e9800998ecf8427e");
    assert_eq!(hex(&compute_md5(b"a")), "0cc175b9c0f1b6a831c399e269772661");
    assert_eq!(hex(&compute_md5(b"abc")), "900150983cd24fb0d6963f7d28e17f72");
    assert_eq!(
        hex(&compute_md5(b"message digest")),
        "f96b697d7cb7938d525a2f31aaf161d0"
    );
}

#[test]
fn test_md5_around_the_chunk_size() {
    for len in [
        MD5_CHUNK_SIZE - 1,
        MD5_CHUNK_SIZE,
        MD5_CHUNK_SIZE + 1,
        2 * MD5_CHUNK_SIZE,
        2 * MD5_CHUNK_SIZE + 17,
    ] {
        let data = (0..len).map(|el| (el % 251) as u8).collect::<Vec<_>>();
        assert_eq!(compute_md5(&data), md5::compute(&data).0);
    }
}

#[test]
fn test_md5_stream_does_not_depend_on_the_cuts() {
    let data = (0..10_000).map(|el| (el * 7) as u8).collect::<Vec<_>>();
    let whole = md5::compute(&data).0;
    for cut in [0, 1, 63, 64, 65, 5_000, 9_999, 10_000] {
        let mut stream = Md5Stream::new();
        stream.consume(&data[..cut]);
        stream.consume(&[]);
        stream.consume(&data[cut..]);
        assert_eq!(stream.finish(), whole);
    }
    let mut stream = Md5Stream::new();
    for piece in data.chunks(7) {
        stream.consume(piece);
    }
    assert_eq!(stream.finish(), whole);
}

#[test]
fn test_md5_stream_of_nothing() {
    assert_eq!(
        hex(&Md5Stream::new().finish()),
        "d41d8cd98f00b204e9800998ecf8427e"
    );
}

#[test]
fn test_md5_streamed_and_in_one_piece() {
    for len in [0, 1, 64, 1_000, MD5_CHUNK_SIZE - 1, MD5_CHUNK_SIZE, 1_500_000] {
        let data = (0..len).map(|el| (el % 253) as u8).collect::<Vec<_>>();
        assert_eq!(compute_md5(&data), md5_of(&data));
    }
    assert_eq!(hex(&md5_of(b"abc")), "900150983cd24fb0d6963f7d28e17f72");
}
