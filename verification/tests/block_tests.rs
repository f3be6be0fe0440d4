use protoflow_blocks::block_config::{
    category_of_tag, BlockCategory, BlockConfig, CoreBlockConfig, SysBlockConfig, TextBlockConfig,
};
use protoflow_blocks::instance::BlockInstance;
use protoflow_blocks::blocks::codecs::{Decode, Encode};
use protoflow_blocks::blocks::core_blocks::{Clock, Delay, DelayAction, RandomInt, RandomIntError};
use protoflow_blocks::blocks::flow::{Batch, Buffer, Concat, Distinct, Gate, Sort, Split, SplitTarget};
use protoflow_blocks::blocks::math::{Add, Div, MathError, Mul, Sub};
use protoflow_blocks::sys::{
    socket_read_step, stdin_buffer_size, stdin_read_step, ReadResult, ReadSocketConfig, ReadStep,
    WriteFlags, DEFAULT_STDIN_BUFFER_SIZE,
};
use protoflow_blocks::tags::BlockTag;
use protoflow_blocks::types::{DelayType, Encoding, HashAlgorithm, NANOS_PER_SEC};

#[test]
fn add_run_block() {
    let mut add = Add::<u64>::new();
    for v in [3u64, 5] {
        assert!(add.accepts(v));
        add.on_input(v);
    }
    assert_eq!(add.on_input_closed(), 8);
}

#[test]
fn mul_run_block() {
    let mut mul = Mul::<u64>::new();
    for v in [3u64, 5] {
        assert!(mul.accepts(v));
        mul.on_input(v);
    }
    assert_eq!(mul.on_input_closed(), 15);
}

#[test]
fn sub_run_block() {
    let mut sub = Sub::<i64>::new();
    for v in [3i64, 5] {
        assert!(sub.accepts(v));
        sub.on_input(v);
    }
    assert_eq!(sub.on_input_closed(), -2);
}

#[test]
fn div_of_integers() {
    let mut div = Div::<i64>::new();
    assert_eq!(div.on_input(-7), Ok(()));
    assert_eq!(div.on_input(2), Ok(()));
    assert_eq!(div.on_input_closed(), -3);
    assert_eq!(div.on_input(0), Err(MathError::DivisionByZero));
}

#[test]
fn math_blocks_start_from_their_identity() {
    assert_eq!(Add::<i32>::new().on_input_closed(), 0);
    assert_eq!(Mul::<u32>::new().on_input_closed(), 1);
}

#[test]
fn add_refuses_an_overflow() {
    let mut add = Add::<u32>::new();
    add.on_input(u32::MAX);
    assert!(!add.accepts(1));
    assert!(add.accepts(0));
}

#[test]
fn buffer_replays_on_each_trigger() {
    let mut b = Buffer::<u32>::new();
    b.on_input(1);
    b.on_input(2);
    b.on_input_closed();
    assert_eq!(b.on_trigger(), &vec![1, 2]);
    assert_eq!(b.on_trigger(), &vec![1, 2]);
}

#[test]
fn gate_releases_once() {
    let mut g = Gate::<u32>::new();
    g.on_input(7);
    g.on_input_closed();
    assert_eq!(g.on_trigger(), vec![7]);
    assert_eq!(g.on_trigger(), Vec::<u32>::new());
}

#[test]
fn batch_sends_full_batches() {
    let mut b = Batch::<u32>::with_params(Some(2));
    assert_eq!(b.batch_size(), 2);
    assert!(b.on_input(1).is_empty());
    assert_eq!(b.on_input(2), vec![1, 2]);
    assert!(b.on_input(3).is_empty());
    assert_eq!(b.on_input_closed(), vec![3]);
    assert_eq!(Batch::<u32>::new().batch_size(), 1);
}

#[test]
fn distinct_drops_repeats() {
    let mut d = Distinct::<i64>::new();
    for v in [3, 1, 3, 2, 1] {
        d.on_input(v);
    }
    assert_eq!(d.on_input_closed(), vec![3, 1, 2]);
}

#[test]
fn concat_sends_first_then_second() {
    let mut c = Concat::<u8>::new();
    c.on_second_input(9);
    c.on_first_input(1);
    c.on_first_input(2);
    assert_eq!(c.on_inputs_closed(), vec![1, 2, 9]);
}

#[test]
fn split_alternates() {
    let mut s = Split::new();
    assert_eq!(s.on_input(), SplitTarget::First);
    assert_eq!(s.on_input(), SplitTarget::Second);
    assert_eq!(s.on_input(), SplitTarget::First);
    assert_eq!(s.message_count(), 3);
}

#[test]
fn sort_orders_messages() {
    let mut s = Sort::new();
    for v in [5, -1, 3, 3] {
        s.on_input(v);
    }
    assert_eq!(s.on_input_closed(), vec![-1, 3, 3, 5]);
}

#[test]
fn random_int_rejects_an_empty_range() {
    let mut r = RandomInt::with_params(Some(1), Some(5), Some(5));
    assert_eq!(r.generate(), Err(RandomIntError::InvalidRange { min: 5, max: 5 }));
    let r = RandomInt::with_params(None, Some(9), Some(2));
    assert_eq!(r.range(), Err(RandomIntError::InvalidRange { min: 9, max: 2 }));
}

#[test]
fn random_int_stays_in_range() {
    for seed in 0..50u64 {
        let mut r = RandomInt::with_params(Some(seed), Some(-3), Some(4));
        let v = r.generate().unwrap();
        assert!((-3..4).contains(&v));
    }
    let mut r = RandomInt::with_params(None, Some(10), Some(11));
    assert_eq!(r.generate(), Ok(10));
}

#[test]
fn random_int_is_repeatable_with_a_seed() {
    let a = RandomInt::with_params(Some(42), None, None).generate().unwrap();
    let b = RandomInt::with_params(Some(42), None, None).generate().unwrap();
    assert_eq!(a, b);
    assert_eq!(RandomInt::new().range(), Ok((i64::MIN, i64::MAX)));
    let r = RandomInt::with_params(Some(7), Some(1), None);
    assert_eq!((r.seed(), r.min(), r.max()), (Some(7), Some(1), None));
}

#[test]
fn delay_drops_when_unconnected() {
    let d = Delay::new();
    assert_eq!(d.delay, DelayType::Fixed(NANOS_PER_SEC));
    assert_eq!(d.on_input(false), DelayAction::Drop);
    assert_eq!(d.on_input(true), DelayAction::Forward(DelayType::Fixed(NANOS_PER_SEC)));
    let d = Delay::with_params(Some(DelayType::Random(1, 2)));
    assert_eq!(d.on_input(true), DelayAction::Forward(DelayType::Random(1, 2)));
    assert_eq!(Clock::with_params(DelayType::Fixed(5)).on_tick(), DelayType::Fixed(5));
}

#[test]
fn encode_text_messages() {
    let e = Encode::<String>::new();
    assert_eq!(e.encoding(), Encoding::TextWithNewlineSuffix);
    assert_eq!(e.on_input(&"42".to_string()), b"42\n".to_vec());
    let p = Encode::<String>::with_params(Some(Encoding::ProtobufWithLengthPrefix));
    assert_eq!(p.on_input(&"42".to_string()), vec![4, 10, 2, b'4', b'2']);
    assert_eq!(p.on_input(&String::new()), vec![0]);
    let q = Encode::<String>::with_params(Some(Encoding::ProtobufWithoutLengthPrefix));
    assert_eq!(q.on_input(&"42".to_string()), vec![10, 2, b'4', b'2']);
    assert_eq!(q.on_input(&String::new()), Vec::<u8>::new());
}

#[test]
fn encode_integers_as_text_lines() {
    let e = Encode::<i32>::with_params(Some(Encoding::TextWithNewlineSuffix));
    assert_eq!(e.on_input(&42), b"42\n".to_vec());
    assert_eq!(e.on_input(&-7), b"-7\n".to_vec());
    assert_eq!(e.on_input(&0), b"0\n".to_vec());
    assert_eq!(e.on_input(&i32::MIN), b"-2147483648\n".to_vec());
    let w = Encode::<i64>::new();
    assert_eq!(w.on_input(&i64::MIN), b"-9223372036854775808\n".to_vec());
    assert_eq!(w.on_input(&i64::MAX), b"9223372036854775807\n".to_vec());
}

#[test]
fn encode_integers_as_protocol_buffers() {
    let e = Encode::<i32>::with_params(Some(Encoding::ProtobufWithoutLengthPrefix));
    assert_eq!(e.on_input(&42), vec![8, 42]);
    assert_eq!(e.on_input(&300), vec![8, 0xac, 0x02]);
    assert_eq!(e.on_input(&0), Vec::<u8>::new());
    assert_eq!(e.on_input(&-1), vec![8, 255, 255, 255, 255, 255, 255, 255, 255, 255, 1]);
    let d = Encode::<i64>::with_params(Some(Encoding::ProtobufWithLengthPrefix));
    assert_eq!(d.on_input(&300), vec![3, 8, 0xac, 0x02]);
    assert_eq!(d.on_input(&0), vec![0]);
}

#[test]
fn decode_text_chunks() {
    let mut d = Decode::<String>::new();
    assert_eq!(d.encoding(), Encoding::TextWithNewlineSuffix);
    assert!(d.on_input(b"4").messages.is_empty());
    assert_eq!(d.on_input(b"2\n7").messages, vec!["42".to_string()]);
}

#[test]
fn decode_integers_from_text_lines() {
    let mut d = Decode::<i32>::with_params(Some(Encoding::TextWithNewlineSuffix));
    let first = d.on_input(b"1\n2");
    assert_eq!(first.messages, vec![1]);
    assert!(!first.failed);
    let second = d.on_input(b"\n3");
    assert_eq!(second.messages, vec![2]);
    // A line that is no number of the type is skipped.
    let third = d.on_input(b"\nx\n+5\n-0\n2147483648\n-2147483648\n");
    assert_eq!(third.messages, vec![3, 5, 0, i32::MIN]);
    assert!(d.on_input(b"\n").messages.is_empty());
}

#[test]
fn encode_then_decode_integers() {
    let e = Encode::<i64>::new();
    let mut d = Decode::<i64>::new();
    let xs: Vec<i64> = vec![0, -1, 17, i64::MAX, i64::MIN];
    let mut out = Vec::new();
    for x in &xs {
        let bytes = e.on_input(x);
        out.extend(d.on_input(&bytes).messages);
    }
    assert_eq!(out, xs);
}

#[test]
fn hash_keeps_everything_it_forwards() {
    let mut h = protoflow_blocks::blocks::codecs::Hash::new();
    assert_eq!(h.algorithm(), HashAlgorithm::Blake3);
    assert!(h.on_input(b"ab", true));
    assert!(!h.on_input(b"c", false));
    assert_eq!(h.on_input_closed(), b"abc".to_vec());
    assert_eq!(h.on_input_closed(), Vec::<u8>::new());
}

#[test]
fn read_steps() {
    let buffer = [1u8, 2, 3, 4];
    assert!(matches!(stdin_read_step(&buffer, ReadResult::Interrupted), ReadStep::Retry));
    assert!(matches!(stdin_read_step(&buffer, ReadResult::Failed), ReadStep::Fail));
    assert!(matches!(stdin_read_step(&buffer, ReadResult::Read(0)), ReadStep::Finish));
    assert!(matches!(stdin_read_step(&buffer, ReadResult::Read(3)), ReadStep::Send(b) if b == vec![1, 2, 3]));
    assert!(matches!(socket_read_step(&buffer, ReadResult::Interrupted), ReadStep::Fail));
    assert!(matches!(socket_read_step(&buffer, ReadResult::Read(4)), ReadStep::Send(b) if b == buffer.to_vec()));
}

#[test]
fn sys_defaults() {
    assert_eq!(stdin_buffer_size(None), DEFAULT_STDIN_BUFFER_SIZE);
    assert_eq!(stdin_buffer_size(Some(7)), 7);
    let c = ReadSocketConfig::or_default(None);
    assert_eq!(c.connection, "tcp://127.0.0.1:7077");
    let m = WriteFlags { create: false, append: true }.open_mode();
    assert!(m.write && !m.create && m.append && !m.truncate);
    let m = WriteFlags::default().open_mode();
    assert!(m.create && m.append && !m.truncate);
    let f = WriteFlags::with_options(None, Some(false));
    assert!(f.create && !f.append);
    assert!(f.open_mode().truncate);
}

#[test]
fn tag_names_roundtrip() {
    assert_eq!(BlockTag::all().len(), BlockTag::count());
    for tag in BlockTag::all() {
        assert_eq!(BlockTag::from_name(tag.as_str()), Some(tag));
    }
    assert_eq!(BlockTag::EncodeJson.as_str(), "EncodeJSON");
    assert_eq!(BlockTag::from_name("NoSuchBlock"), None);
}

#[test]
fn categories_of_tags() {
    assert_eq!(category_of_tag("Buffer"), Some(BlockCategory::Core));
    assert_eq!(category_of_tag("Random"), Some(BlockCategory::Core));
    assert_eq!(category_of_tag("Hash"), Some(BlockCategory::Hash));
    assert_eq!(category_of_tag("EncodeHex"), Some(BlockCategory::Io));
    assert_eq!(category_of_tag("ReadStdin"), Some(BlockCategory::Sys));
    assert_eq!(category_of_tag("Sort"), None);
    assert_eq!(category_of_tag("Unknown"), None);
}

#[test]
fn tags_instantiate_with_defaults() {
    assert!(matches!(BlockTag::Const.instantiate(), BlockInstance::Const { value } if value.is_empty()));
    assert!(matches!(BlockTag::Delay.instantiate(), BlockInstance::Delay(DelayType::Fixed(n)) if n == NANOS_PER_SEC));
    assert!(matches!(
        BlockTag::ReadStdin.instantiate(),
        BlockInstance::ReadStdin { buffer_size } if buffer_size == DEFAULT_STDIN_BUFFER_SIZE
    ));
    assert!(matches!(BlockTag::WriteFile.instantiate(), BlockInstance::WriteFile(f) if f.create && f.append));
    assert!(matches!(BlockTag::Random.instantiate(), BlockInstance::Random { seed: None }));
}

#[test]
fn configs_instantiate_with_their_parameters() {
    let delay = BlockConfig::Core(CoreBlockConfig::Delay {
        input: "a".to_string(),
        output: "b".to_string(),
        delay: Some(DelayType::Fixed(5)),
    });
    assert!(matches!(delay.instantiate(), BlockInstance::Delay(DelayType::Fixed(5))));
    let stdin = BlockConfig::Sys(SysBlockConfig::ReadStdin { output: "o".to_string(), buffer_size: Some(64) });
    assert!(matches!(stdin.instantiate(), BlockInstance::ReadStdin { buffer_size: 64 }));
    let concat = BlockConfig::Text(TextBlockConfig::ConcatStrings {
        input: "i".to_string(),
        output: "o".to_string(),
        delimiter: Some(",".to_string()),
    });
    assert!(matches!(concat.instantiate(), BlockInstance::ConcatStrings { joiner: Some(j) } if j == ","));
}

#[test]
fn batch_stream_keeps_order_and_flushes_every_n() {
    let mut b = Batch::<u32>::with_params(Some(3));
    let mut sent = Vec::new();
    for x in 1..=8u32 {
        sent.extend(b.on_input(x));
        if x % 3 == 0 {
            assert_eq!(sent, (1..=x).collect::<Vec<u32>>());
        }
    }
    assert_eq!(b.messages(), &vec![7, 8]);
    sent.extend(b.on_input_closed());
    assert_eq!(sent, (1..=8u32).collect::<Vec<u32>>());
    assert!(b.messages().is_empty());
}

#[test]
fn split_stream_alternates_by_parity() {
    let mut s = Split::new();
    let targets: Vec<SplitTarget> = (0..6).map(|_| s.on_input()).collect();
    for (i, t) in targets.iter().enumerate() {
        let expected = if i % 2 == 0 { SplitTarget::First } else { SplitTarget::Second };
        assert_eq!(*t, expected);
    }
}

#[test]
fn distinct_stream_keeps_first_occurrences() {
    let mut d = Distinct::<String>::new();
    for v in ["b", "a", "b", "c", "a", "d"] {
        d.on_input(v.to_string());
    }
    assert_eq!(d.on_input_closed(), vec!["b", "a", "c", "d"]);
}

#[test]
fn div_stream_folds_quotients_or_stops_at_zero() {
    let mut div = Div::<i32>::new();
    for x in [100, 3, -2] {
        assert_eq!(div.on_input(x), Ok(()));
    }
    assert_eq!(div.on_input_closed(), -16);
    let mut stopped = Div::<i32>::new();
    assert_eq!(stopped.on_input(0), Ok(()));
    assert_eq!(stopped.on_input(5), Ok(()));
    assert_eq!(stopped.on_input(0), Err(MathError::DivisionByZero));
    assert_eq!(stopped.on_input_closed(), 0);
    assert_eq!(Div::<i32>::new().on_input_closed(), 1);
}

#[test]
fn div_accepts_only_quotients_that_fit() {
    let mut div = Div::<i32>::new();
    assert!(div.accepts(i32::MIN));
    assert_eq!(div.on_input(i32::MIN), Ok(()));
    assert!(!div.accepts(-1));
    assert!(div.accepts(0));
    assert!(div.accepts(2));
}

#[test]
fn hash_stream_forwards_and_keeps_all_bytes() {
    let mut h = protoflow_blocks::blocks::codecs::Hash::with_params(Some(HashAlgorithm::Blake3));
    let chunks: [&[u8]; 3] = [b"ab", b"", b"cde"];
    let mut forwarded = Vec::new();
    for c in chunks {
        if h.on_input(c, true) {
            forwarded.push(c.to_vec());
        }
    }
    assert_eq!(forwarded, vec![b"ab".to_vec(), Vec::new(), b"cde".to_vec()]);
    assert_eq!(h.on_input_closed(), b"abcde".to_vec());
}

#[test]
fn stdin_stream_sends_all_input_in_bounded_chunks() {
    let input = b"hello world";
    let size = 4usize;
    let mut pos = 0usize;
    let mut sent: Vec<Vec<u8>> = Vec::new();
    let mut interrupted_once = false;
    loop {
        let mut buffer = vec![0u8; size];
        let result = if !interrupted_once {
            interrupted_once = true;
            ReadResult::Interrupted
        } else {
            let n = (input.len() - pos).min(size);
            buffer[..n].copy_from_slice(&input[pos..pos + n]);
            pos += n;
            ReadResult::Read(n)
        };
        match stdin_read_step(&buffer, result) {
            ReadStep::Retry => continue,
            ReadStep::Fail => panic!("no read fails here"),
            ReadStep::Finish => break,
            ReadStep::Send(b) => sent.push(b),
        }
    }
    assert_eq!(sent.concat(), input.to_vec());
    assert!(sent.iter().all(|m| !m.is_empty() && m.len() <= size));
}

#[test]
fn sort_orders_strings_and_keeps_every_copy() {
    let mut s = Sort::<String>::new();
    for v in ["pear", "apple", "pea", "apple", ""] {
        s.on_input(v.to_string());
    }
    assert_eq!(s.messages().len(), 5);
    assert_eq!(s.on_input_closed(), vec!["", "apple", "apple", "pea", "pear"]);
    assert!(s.messages().is_empty());
}

#[test]
fn sort_three_one_two() {
    let mut s = Sort::<i64>::new();
    for v in [3, 1, 2] {
        s.on_input(v);
    }
    assert_eq!(s.on_input_closed(), vec![1, 2, 3]);
}

#[test]
fn decode_integers_reads_lines_as_from_str_does() {
    let mut d = Decode::<i32>::new();
    let r = d.on_input(b"+\n-\n\n007\n-2147483649\n2147483647\n 1\n1 \n");
    assert_eq!(r.messages, vec![7, i32::MAX]);
    assert!(!r.failed);
    let mut w = Decode::<i64>::new();
    let r = w.on_input(b"9223372036854775807\n-9223372036854775808\n9223372036854775808\n");
    assert_eq!(r.messages, vec![i64::MAX, i64::MIN]);
}

#[test]
fn decode_reports_invalid_text() {
    let mut d = Decode::<String>::new();
    let r = d.on_input(b"ok\n\xff\n");
    assert!(r.failed);
}

#[test]
fn decode_valid_text_in_any_chunks_reads_the_same_lines() {
    let text = "héllo\nwörld\n€\ntail".as_bytes();
    let mut whole = Decode::<String>::new();
    let at_once = whole.on_input(text);
    assert!(!at_once.failed);
    let mut split = Decode::<String>::new();
    let mut lines = Vec::new();
    for chunk in ["hé", "llo\nwö", "rld\n", "€\nta", "il"] {
        let r = split.on_input(chunk.as_bytes());
        assert!(!r.failed);
        lines.extend(r.messages);
    }
    assert_eq!(lines, at_once.messages);
    assert_eq!(lines, vec!["héllo", "wörld", "€"]);
}

#[test]
fn decode_fails_where_a_chunk_ends_inside_a_character_after_a_line_feed() {
    let mut d = Decode::<String>::new();
    let r = d.on_input(b"a\n\xc3");
    assert!(r.failed);
    let mut whole = Decode::<String>::new();
    let r = whole.on_input(b"a\n\xc3\xa9\n");
    assert!(!r.failed);
    assert_eq!(r.messages, vec!["a".to_string(), "é".to_string()]);
}

#[test]
fn socket_stream_hands_on_all_bytes_in_bounded_chunks() {
    let input = b"a client's bytes";
    let size = 5usize;
    let mut pos = 0usize;
    let mut handed: Vec<Vec<u8>> = Vec::new();
    loop {
        let mut buffer = vec![0u8; size];
        let n = (input.len() - pos).min(size);
        buffer[..n].copy_from_slice(&input[pos..pos + n]);
        pos += n;
        match socket_read_step(&buffer, ReadResult::Read(n)) {
            ReadStep::Send(b) => handed.push(b),
            ReadStep::Finish => break,
            ReadStep::Retry | ReadStep::Fail => panic!("no read fails here"),
        }
    }
    assert_eq!(handed.concat(), input.to_vec());
    assert!(handed.iter().all(|m| !m.is_empty() && m.len() <= size));
    assert!(matches!(socket_read_step(&[0u8; 4], ReadResult::Failed), ReadStep::Fail));
}
