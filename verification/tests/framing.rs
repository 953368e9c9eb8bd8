use ws_bridge::framing::{encode_text, CodecError, FramingCodec, FramingPolicy, NEWLINE};

fn lines(codec: &mut FramingCodec, data: &[u8]) -> Vec<Vec<u8>> {
    codec.decode(data).expect("the chunk is within the limit")
}

#[test]
fn newline_is_the_line_feed_byte() {
    assert_eq!(NEWLINE, b'\n');
}

#[test]
fn text_gets_a_newline_under_the_line_policy() {
    assert_eq!(encode_text(FramingPolicy::LineDelimited, "hello"), b"hello\n".to_vec());
}

#[test]
fn text_is_written_as_it_is_under_the_raw_policy() {
    assert_eq!(encode_text(FramingPolicy::RawChunk, "hello"), b"hello".to_vec());
}

#[test]
fn empty_text_is_a_lone_newline_under_the_line_policy() {
    assert_eq!(encode_text(FramingPolicy::LineDelimited, ""), b"\n".to_vec());
    assert_eq!(encode_text(FramingPolicy::RawChunk, ""), Vec::<u8>::new());
}

#[test]
fn text_is_encoded_as_utf8() {
    assert_eq!(
        encode_text(FramingPolicy::LineDelimited, "h\u{e9}"),
        vec![b'h', 0xc3, 0xa9, b'\n']
    );
}

#[test]
fn a_new_codec_holds_nothing_back() {
    let codec = FramingCodec::new(FramingPolicy::LineDelimited);
    assert_eq!(codec.policy(), FramingPolicy::LineDelimited);
    assert_eq!(codec.max_length(), usize::MAX);
    assert!(codec.buffered().is_empty());
    let codec = FramingCodec::with_max_length(FramingPolicy::RawChunk, 7);
    assert_eq!(codec.policy(), FramingPolicy::RawChunk);
    assert_eq!(codec.max_length(), 7);
    assert!(codec.buffered().is_empty());
}

#[test]
fn two_lines_in_one_chunk_are_two_units() {
    let mut codec = FramingCodec::new(FramingPolicy::LineDelimited);
    assert_eq!(lines(&mut codec, b"foo\nbar\n"), vec![b"foo".to_vec(), b"bar".to_vec()]);
    assert!(codec.buffered().is_empty());
}

#[test]
fn a_partial_line_is_held_until_its_newline_arrives() {
    let mut codec = FramingCodec::new(FramingPolicy::LineDelimited);
    assert_eq!(lines(&mut codec, b"fo"), Vec::<Vec<u8>>::new());
    assert_eq!(codec.buffered(), b"fo");
    assert_eq!(lines(&mut codec, b"o\nba"), vec![b"foo".to_vec()]);
    assert_eq!(codec.buffered(), b"ba");
    assert_eq!(lines(&mut codec, b"r\n"), vec![b"bar".to_vec()]);
    assert!(codec.buffered().is_empty());
}

#[test]
fn empty_lines_are_units_too() {
    let mut codec = FramingCodec::new(FramingPolicy::LineDelimited);
    assert_eq!(
        lines(&mut codec, b"\n\na\n"),
        vec![Vec::<u8>::new(), Vec::<u8>::new(), b"a".to_vec()]
    );
}

#[test]
fn an_empty_chunk_changes_nothing() {
    let mut codec = FramingCodec::new(FramingPolicy::LineDelimited);
    assert_eq!(lines(&mut codec, b"ab"), Vec::<Vec<u8>>::new());
    assert_eq!(lines(&mut codec, b""), Vec::<Vec<u8>>::new());
    assert_eq!(codec.buffered(), b"ab");
    let mut raw = FramingCodec::new(FramingPolicy::RawChunk);
    assert_eq!(lines(&mut raw, b""), Vec::<Vec<u8>>::new());
}

#[test]
fn a_carriage_return_stays_in_its_line() {
    let mut codec = FramingCodec::new(FramingPolicy::LineDelimited);
    assert_eq!(lines(&mut codec, b"foo\r\n"), vec![b"foo\r".to_vec()]);
}

#[test]
fn a_raw_chunk_is_one_unit_newlines_and_all() {
    let mut codec = FramingCodec::new(FramingPolicy::RawChunk);
    assert_eq!(lines(&mut codec, b"foo\nba"), vec![b"foo\nba".to_vec()]);
    assert!(codec.buffered().is_empty());
    assert_eq!(lines(&mut codec, b"r\n"), vec![b"r\n".to_vec()]);
}

#[test]
fn units_do_not_depend_on_the_chunking() {
    let stream = b"alpha\nbeta\n\ngamma\ndel";
    let mut whole = FramingCodec::new(FramingPolicy::LineDelimited);
    let expected = lines(&mut whole, stream);
    assert_eq!(
        expected,
        vec![b"alpha".to_vec(), b"beta".to_vec(), Vec::<u8>::new(), b"gamma".to_vec()]
    );
    for cut in 0..=stream.len() {
        let mut codec = FramingCodec::new(FramingPolicy::LineDelimited);
        let mut units = lines(&mut codec, &stream[..cut]);
        units.extend(lines(&mut codec, &stream[cut..]));
        assert_eq!(units, expected);
        assert_eq!(codec.buffered(), whole.buffered());
    }
    let mut bytewise = FramingCodec::new(FramingPolicy::LineDelimited);
    let mut units = Vec::new();
    for byte in stream.iter() {
        units.extend(lines(&mut bytewise, &[*byte]));
    }
    assert_eq!(units, expected);
    assert_eq!(bytewise.buffered(), b"del");
}

#[test]
fn decoding_loses_no_byte() {
    let stream = b"one\ntwo\nthr";
    let mut codec = FramingCodec::new(FramingPolicy::LineDelimited);
    let units = lines(&mut codec, stream);
    let mut again = Vec::new();
    for unit in units {
        again.extend(unit);
        again.push(NEWLINE);
    }
    again.extend_from_slice(codec.buffered());
    assert_eq!(again, stream.to_vec());
}

#[test]
fn a_line_of_exactly_the_limit_is_taken() {
    let mut codec = FramingCodec::with_max_length(FramingPolicy::LineDelimited, 3);
    assert_eq!(lines(&mut codec, b"abc\nde"), vec![b"abc".to_vec()]);
    assert_eq!(lines(&mut codec, b"f"), Vec::<Vec<u8>>::new());
    assert_eq!(codec.buffered(), b"def");
    assert_eq!(lines(&mut codec, b"\n"), vec![b"def".to_vec()]);
}

#[test]
fn a_line_over_the_limit_is_refused() {
    let mut codec = FramingCodec::with_max_length(FramingPolicy::LineDelimited, 3);
    assert_eq!(codec.decode(b"abcd\n"), Err(CodecError::LineTooLong));
}

#[test]
fn a_pending_line_over_the_limit_is_refused_before_its_newline() {
    let mut codec = FramingCodec::with_max_length(FramingPolicy::LineDelimited, 3);
    assert_eq!(lines(&mut codec, b"ab"), Vec::<Vec<u8>>::new());
    assert_eq!(codec.decode(b"cd"), Err(CodecError::LineTooLong));
}

#[test]
fn a_refused_chunk_leaves_the_codec_as_it_was() {
    let mut codec = FramingCodec::with_max_length(FramingPolicy::LineDelimited, 3);
    assert_eq!(lines(&mut codec, b"x\nab"), vec![b"x".to_vec()]);
    assert_eq!(codec.decode(b"\nok\ntoolong\n"), Err(CodecError::LineTooLong));
    assert_eq!(codec.buffered(), b"ab");
    assert_eq!(codec.max_length(), 3);
    assert_eq!(lines(&mut codec, b"c\n"), vec![b"abc".to_vec()]);
}

#[test]
fn a_limit_of_zero_takes_only_empty_lines() {
    let mut codec = FramingCodec::with_max_length(FramingPolicy::LineDelimited, 0);
    assert_eq!(lines(&mut codec, b"\n\n"), vec![Vec::<u8>::new(), Vec::<u8>::new()]);
    assert_eq!(codec.decode(b"a"), Err(CodecError::LineTooLong));
}

#[test]
fn the_limit_has_no_bearing_on_raw_chunks() {
    let mut codec = FramingCodec::with_max_length(FramingPolicy::RawChunk, 2);
    assert_eq!(lines(&mut codec, b"abcdef"), vec![b"abcdef".to_vec()]);
}
