use spark_codecs::buffer::contract::{BufferPool, ReadableBuffer};
use spark_codecs::buffer::pool::{LeasedBuffer, SlabBufferPool};
use spark_codecs::buffer::pooled::PooledBuffer;
use spark_codecs::error::{PROTOCOL_BUDGET_EXCEEDED, PROTOCOL_DECODE};
use spark_codecs::line::{
    line_of_frame, DecodeContext, DecodeOutcome, EncodeContext, LineDelimitedCodec,
};
use spark_codecs::tck::slowloris::DummyPool;

fn readable(bytes: &[u8]) -> PooledBuffer {
    SlabBufferPool::new().alloc_readable(bytes).expect("a buffer is lent").view
}

#[test]
fn encode_appends_newline() {
    let codec = LineDelimitedCodec::new();
    let mut ctx = EncodeContext::new(SlabBufferPool::new());
    let payload = codec.encode(&"hello".to_string(), &mut ctx).expect("encode succeeds");
    let buffer = payload.into_buffer();
    let bytes = buffer.try_into_vec().expect("convert to vec");
    assert_eq!(bytes, b"hello\n");
}

#[test]
fn decode_returns_complete_when_newline_present() {
    let codec = LineDelimitedCodec::new();
    let mut src = readable(b"hello\nworld\n");
    let ctx = DecodeContext::new();
    let outcome = codec.decode(&mut src, &ctx).expect("decode succeeds");
    match outcome {
        DecodeOutcome::Complete(text) => assert_eq!(text, "hello"),
        other => panic!("unexpected outcome: {:?}", other),
    }
    let remaining = src.try_into_vec().expect("take remaining bytes");
    assert_eq!(remaining, b"world\n");
}

#[test]
fn decode_marks_incomplete_without_newline() {
    let codec = LineDelimitedCodec::new();
    let mut src = readable(b"partial");
    let ctx = DecodeContext::new();
    let outcome = codec.decode(&mut src, &ctx).expect("decode ok");
    assert!(matches!(outcome, DecodeOutcome::Incomplete));
    let remaining = src.try_into_vec().expect("take remaining");
    assert_eq!(remaining, b"partial");
}

#[test]
fn decode_respects_frame_budget() {
    let codec = LineDelimitedCodec::new();
    let mut src = readable(b"toolong\n");
    let ctx = DecodeContext::with_max_frame_size(Some(3));
    let err = codec.decode(&mut src, &ctx).expect_err("expect budget error");
    assert_eq!(err.code(), PROTOCOL_BUDGET_EXCEEDED);
}

#[test]
fn budget_leaves_out_the_newline_of_a_complete_line() {
    let codec = LineDelimitedCodec::new();
    let mut src = readable(b"abc\n");
    assert!(codec.decode(&mut src, &DecodeContext::with_max_frame_size(Some(2))).is_err());
    let outcome = codec
        .decode(&mut src, &DecodeContext::with_max_frame_size(Some(3)))
        .expect("the line fits");
    assert!(matches!(outcome, DecodeOutcome::Complete(text) if text == "abc"));
}

#[test]
fn budget_limits_bytes_without_a_newline() {
    let codec = LineDelimitedCodec::new();
    let mut src = readable(b"abcd");
    let err = codec
        .decode(&mut src, &DecodeContext::with_max_frame_size(Some(3)))
        .expect_err("too long already");
    assert_eq!(err.code(), PROTOCOL_BUDGET_EXCEEDED);
    let outcome = codec
        .decode(&mut src, &DecodeContext::with_max_frame_size(Some(4)))
        .expect("may still be a line");
    assert!(matches!(outcome, DecodeOutcome::Incomplete));
}

#[test]
fn encode_refuses_a_line_over_its_budget() {
    let codec = LineDelimitedCodec::new();
    let mut tight = EncodeContext::with_max_frame_size(SlabBufferPool::new(), Some(5));
    let err = match codec.encode(&"hello".to_string(), &mut tight) {
        Err(err) => err,
        Ok(_) => panic!("the newline does not fit"),
    };
    assert_eq!(err.code(), PROTOCOL_BUDGET_EXCEEDED);
    let mut wide = EncodeContext::with_max_frame_size(SlabBufferPool::new(), Some(6));
    assert!(codec.encode(&"hello".to_string(), &mut wide).is_ok());
}

#[test]
fn encoded_lines_are_decoded_in_order() {
    let codec = LineDelimitedCodec::new();
    let mut ctx = EncodeContext::new(SlabBufferPool::new());
    let mut stream = Vec::new();
    for line in ["", "one", "zwei ü", "三"] {
        let payload = codec.encode(&line.to_string(), &mut ctx).expect("no budget");
        stream.extend(payload.into_buffer().try_into_vec().expect("bytes"));
    }
    let mut src = readable(&stream);
    let mut lines = Vec::new();
    while src.remaining() > 0 {
        match codec.decode(&mut src, &DecodeContext::new()).expect("valid lines") {
            DecodeOutcome::Complete(text) => lines.push(text),
            DecodeOutcome::Incomplete => panic!("all lines are complete"),
        }
    }
    assert_eq!(lines, vec!["", "one", "zwei ü", "三"]);
}

#[test]
fn a_line_has_to_be_utf8() {
    let codec = LineDelimitedCodec::new();
    let mut src = readable(&[0xff, b'\n']);
    let err = codec.decode(&mut src, &DecodeContext::new()).expect_err("not UTF-8");
    assert_eq!(err.code(), PROTOCOL_DECODE);
}

#[test]
fn a_frame_gives_its_line() {
    assert!(matches!(
        line_of_frame(b"hi\n".to_vec()),
        Ok(DecodeOutcome::Complete(text)) if text == "hi"
    ));
    assert!(line_of_frame(vec![0xc3, b'\n']).is_err());
}

#[test]
fn the_codec_describes_itself() {
    let codec = LineDelimitedCodec::new();
    let descriptor = codec.descriptor();
    assert_eq!(descriptor.content_type, "text/plain; charset=utf-8");
    assert_eq!(descriptor.content_encoding, "identity");
    let mut ctx = EncodeContext::new(SlabBufferPool::new());
    let other = LineDelimitedCodec::default();
    other.encode(&"hello".to_string(), &mut ctx).expect("encode succeeds");
    other.decode(&mut readable(b"hello\n"), &DecodeContext::new()).expect("decode succeeds");
    assert_eq!(other.descriptor(), codec.descriptor());
    assert_eq!(other, codec);
}

#[test]
fn buffers_come_back_from_the_codec() {
    let codec = LineDelimitedCodec::new();
    let mut ctx = EncodeContext::new(SlabBufferPool::new());
    let payload = codec.encode(&"hello".to_string(), &mut ctx).expect("encode succeeds");
    assert_eq!(ctx.pool.stats().active_leases, 1);
    let mut leased = LeasedBuffer { view: payload.buffer, lease: payload.lease };
    assert_eq!(leased.view.to_vec(), b"hello\n");
    codec.decode(&mut leased.view, &DecodeContext::new()).expect("decode succeeds");
    assert_eq!(leased.view.remaining(), 0);
    assert!(ctx.pool.release(leased).is_none());
    assert_eq!(ctx.pool.stats().active_leases, 0);
}

#[test]
fn the_refusal_of_a_pool_is_handed_on() {
    let codec = LineDelimitedCodec::new();
    let mut ctx = EncodeContext::new(DummyPool);
    let refused = match codec.encode(&"hello".to_string(), &mut ctx) {
        Err(err) => err,
        Ok(_) => panic!("the pool lends nothing"),
    };
    let own = match DummyPool.acquire(6) {
        Err(err) => err,
        Ok(_) => panic!("the pool lends nothing"),
    };
    assert_eq!(refused.code(), "buffer.disabled");
    assert_eq!(refused.message(), own.message());
}
