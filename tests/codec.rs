use packline::codec::{
    decode_i16, decode_i32, decode_i64, decode_i8, decode_i8_vec, decode_string, decode_u16,
    decode_u32, decode_u32_vec, decode_u64, decode_u8, encode_i16, encode_i32, encode_i64,
    encode_i8, encode_i8_vec, encode_string, encode_u16, encode_u32, encode_u32_vec,
    encode_u64, encode_u8, i8_vec_size, string_size, u32_vec_size, ByteDecoder, DecodeError,
};

#[test]
fn test_decode_i8_from_bytes() {
    let buf = vec![42u8; 1];
    let mut decoder = ByteDecoder::new(buf.as_slice());
    assert_eq!(42i8, decode_i8(&mut decoder).unwrap())
}

#[test]
fn test_decode_i16_from_bytes() {
    let buf = vec![42u8; 2];
    let mut decoder = ByteDecoder::new(buf.as_slice());
    assert_eq!((42i16 << 8) + 42i16, decode_i16(&mut decoder).unwrap())
}

#[test]
fn test_decode_i32_from_bytes() {
    let buf = vec![42u8; 4];
    let mut decoder = ByteDecoder::new(buf.as_slice());
    assert_eq!(
        (42i32 << 24) + (42i32 << 16) + (42i32 << 8) + 42i32,
        decode_i32(&mut decoder).unwrap()
    )
}

#[test]
fn test_decode_i64_from_bytes() {
    let buf = vec![42u8; 8];
    let mut decoder = ByteDecoder::new(buf.as_slice());
    assert_eq!(
        (42i64 << 56)
            + (42i64 << 48)
            + (42i64 << 40)
            + (42i64 << 32)
            + (42i64 << 24)
            + (42i64 << 16)
            + (42i64 << 8)
            + 42i64,
        decode_i64(&mut decoder).unwrap()
    )
}

#[test]
fn test_decode_u16_from_bytes() {
    let buf = vec![42u8; 2];
    let mut decoder = ByteDecoder::new(buf.as_slice());
    assert_eq!((42u16 << 8) + 42u16, decode_u16(&mut decoder).unwrap())
}

#[test]
fn test_decode_u32_from_bytes() {
    let buf = vec![42u8; 4];
    let mut decoder = ByteDecoder::new(buf.as_slice());
    assert_eq!(
        (42u32 << 24) + (42u32 << 16) + (42u32 << 8) + 42u32,
        decode_u32(&mut decoder).unwrap()
    )
}

#[test]
fn test_decode_u64_from_bytes() {
    let buf = vec![42u8; 8];
    let mut decoder = ByteDecoder::new(buf.as_slice());
    assert_eq!(
        (42u64 << 56)
            + (42u64 << 48)
            + (42u64 << 40)
            + (42u64 << 32)
            + (42u64 << 24)
            + (42u64 << 16)
            + (42u64 << 8)
            + 42u64,
        decode_u64(&mut decoder).unwrap()
    )
}

// Floats travel as the big-endian bytes of their IEEE-754 bit pattern.
#[test]
fn test_decode_f32_from_bytes() {
    let buf = vec![0u8; 4];
    let mut decoder = ByteDecoder::new(buf.as_slice());
    assert_eq!(0f32, f32::from_bits(decode_u32(&mut decoder).unwrap()))
}

#[test]
fn test_decode_f64_from_bytes() {
    let buf = vec![0u8; 8];
    let mut decoder = ByteDecoder::new(buf.as_slice());
    assert_eq!(0f64, f64::from_bits(decode_u64(&mut decoder).unwrap()))
}

#[test]
fn test_decode_string_from_bytes() {
    let input = "packline";
    let len = input.len();

    let str_bytes = input.as_bytes();
    let len_bytes = i64::to_be_bytes(len as i64);
    let concat_vec = [&len_bytes[0..8], &str_bytes[0..len]].concat();

    let buf = concat_vec.as_slice();

    let mut decoder = ByteDecoder::new(buf);
    assert_eq!("packline", decode_string(&mut decoder).unwrap())
}

#[test]
fn test_decode_vec_from_bytes() {
    let buf = [
        0u8, 0u8, 0u8, 0u8, 0u8, 0u8, 0u8, 4u8, //Vec length
        42u8, 42u8, 42u8, 42u8, //Vec values
    ];

    let mut decoder = ByteDecoder::new(&buf);
    let result = decode_i8_vec(&mut decoder).unwrap();

    assert_eq!(vec![42i8, 42i8, 42i8, 42i8], result)
}

#[test]
fn test_decode_struct_from_bytes() {
    let buf = [
        42u8, //x value
        42u8, 42u8, //y value
        42u8, 42u8, 42u8, 42u8, //z value
    ];

    let mut decoder = ByteDecoder::new(&buf);
    let x = decode_i8(&mut decoder).unwrap();
    let y = decode_i16(&mut decoder).unwrap();
    let z = decode_i32(&mut decoder).unwrap();

    assert_eq!(42i8, x);
    assert_eq!((42i16 << 8) + 42i16, y);
    assert_eq!((42i32 << 24) + (42i32 << 16) + (42i32 << 8) + 42i32, z);
}

#[test]
fn test_encode_i8_to_bytes() {
    const SIZE: usize = 1;

    let mut buf: Vec<u8> = Vec::with_capacity(SIZE);
    encode_i8(42i8, &mut buf);

    let mut result = vec![0u8; SIZE];
    result.copy_from_slice(&buf);

    assert_eq!(vec![42u8; SIZE], result);
    assert_eq!(SIZE, buf.capacity());
}

#[test]
fn test_encode_i16_to_bytes() {
    const SIZE: usize = 2;

    let mut buf: Vec<u8> = Vec::with_capacity(SIZE);
    encode_i16((42i16 << 8) + 42i16, &mut buf);

    let mut result = vec![0u8; SIZE];
    result.copy_from_slice(&buf);

    assert_eq!(vec![42u8; SIZE], result);
    assert_eq!(SIZE, buf.capacity());
}

#[test]
fn test_encode_i32_to_bytes() {
    const SIZE: usize = 4;

    let mut buf: Vec<u8> = Vec::with_capacity(SIZE);
    encode_i32((42i32 << 24) + (42i32 << 16) + (42i32 << 8) + 42i32, &mut buf);

    let mut result = vec![0u8; SIZE];
    result.copy_from_slice(&buf);

    assert_eq!(vec![42u8; SIZE], result);
    assert_eq!(4, buf.capacity());
}

#[test]
fn test_encode_i64_to_bytes() {
    const SIZE: usize = 8;

    let mut buf: Vec<u8> = Vec::with_capacity(SIZE);
    encode_i64(
        (42i64 << 56)
            + (42i64 << 48)
            + (42i64 << 40)
            + (42i64 << 32)
            + (42i64 << 24)
            + (42i64 << 16)
            + (42i64 << 8)
            + 42i64,
        &mut buf,
    );

    let mut result = vec![0u8; SIZE];
    result.copy_from_slice(&buf);

    assert_eq!(vec![42u8; SIZE], result);
    assert_eq!(SIZE, buf.capacity());
}

#[test]
fn test_encode_u16_to_bytes() {
    const SIZE: usize = 2;

    let mut buf: Vec<u8> = Vec::with_capacity(SIZE);
    encode_u16((42u16 << 8) + 42u16, &mut buf);

    let mut result = vec![0u8; SIZE];
    result.copy_from_slice(&buf);

    assert_eq!(vec![42u8; SIZE], result);
    assert_eq!(SIZE, buf.capacity());
}

#[test]
fn test_encode_u32_to_bytes() {
    const SIZE: usize = 4;

    let mut buf: Vec<u8> = Vec::with_capacity(SIZE);
    encode_u32((42u32 << 24) + (42u32 << 16) + (42u32 << 8) + 42u32, &mut buf);

    let mut result = vec![0u8; SIZE];
    result.copy_from_slice(&buf);

    assert_eq!(vec![42u8; SIZE], result);
    assert_eq!(SIZE, buf.capacity());
}

#[test]
fn test_encode_u64_to_bytes() {
    const SIZE: usize = 8;

    let mut buf: Vec<u8> = Vec::with_capacity(SIZE);
    encode_u64(
        (42u64 << 56)
            + (42u64 << 48)
            + (42u64 << 40)
            + (42u64 << 32)
            + (42u64 << 24)
            + (42u64 << 16)
            + (42u64 << 8)
            + 42u64,
        &mut buf,
    );

    let mut result = vec![0u8; SIZE];
    result.copy_from_slice(&buf);

    assert_eq!(vec![42u8; SIZE], result);
    assert_eq!(SIZE, buf.capacity());
}

#[test]
fn test_encode_f32_to_bytes() {
    const SIZE: usize = 4;

    let mut buf: Vec<u8> = Vec::with_capacity(SIZE);
    encode_u32(0f32.to_bits(), &mut buf);

    let mut result = vec![0u8; SIZE];
    result.copy_from_slice(&buf);

    assert_eq!(vec![0u8; SIZE], result);
    assert_eq!(SIZE, buf.capacity());
}

#[test]
fn test_encode_f64_to_bytes() {
    const SIZE: usize = 8;

    let mut buf: Vec<u8> = Vec::with_capacity(SIZE);
    encode_u64(0f64.to_bits(), &mut buf);

    let mut result = vec![0u8; SIZE];
    result.copy_from_slice(&buf);

    assert_eq!(vec![0u8; SIZE], result);
    assert_eq!(SIZE, buf.capacity());
}

#[test]
fn test_encode_string_to_bytes() {
    const SIZE: usize = 16;

    let input = "packline".to_string();
    let mut buf: Vec<u8> = Vec::with_capacity(SIZE);
    encode_string(&input, &mut buf);

    let mut result = vec![0u8; SIZE];
    result.copy_from_slice(&buf);

    assert_eq!(
        [vec![0u8, 0u8, 0u8, 0u8, 0u8, 0u8, 0u8, 8u8,].as_slice(), input.as_bytes()].concat(),
        result
    );
    assert_eq!(SIZE, buf.capacity());
}

#[test]
fn test_encode_vec_to_bytes() {
    const SIZE: usize = 12;

    let mut buf: Vec<u8> = Vec::with_capacity(SIZE);
    encode_i8_vec(&vec![2i8, 4i8, 8i8, 16i8], &mut buf);

    let mut result = vec![0u8; SIZE];
    result.copy_from_slice(&buf);

    assert_eq!(
        vec![
            0u8, 0u8, 0u8, 0u8, 0u8, 0u8, 0u8, 4u8, //Vec length
            2u8, 4u8, 8u8, 16u8 //Vec values
        ],
        result
    );
    assert_eq!(SIZE, buf.capacity());
}

#[test]
fn test_encode_struct_to_bytes() {
    const SIZE: usize = 7;
    let mut buf: Vec<u8> = Vec::with_capacity(SIZE);

    encode_i8(42i8, &mut buf);
    encode_i16(42i16, &mut buf);
    encode_i32(42i32, &mut buf);

    let mut result = vec![0u8; SIZE];
    result.copy_from_slice(&buf);

    assert_eq!(
        vec![
            42u8, //x value
            0u8, 42u8, //y value
            0u8, 0u8, 0u8, 42u8 //z value
        ],
        result
    );
    assert_eq!(SIZE, buf.capacity());
}

#[test]
fn round_trip_every_primitive() {
    let mut buf: Vec<u8> = Vec::new();
    encode_u8(200, &mut buf);
    encode_i8(-5, &mut buf);
    encode_u16(0xBEEF, &mut buf);
    encode_i16(-12345, &mut buf);
    encode_u32(0xDEADBEEF, &mut buf);
    encode_i32(i32::MIN, &mut buf);
    encode_u64(u64::MAX - 1, &mut buf);
    encode_i64(-1, &mut buf);
    assert_eq!(buf.len(), 1 + 1 + 2 + 2 + 4 + 4 + 8 + 8);

    let mut d = ByteDecoder::new(buf.as_slice());
    assert_eq!(decode_u8(&mut d), Ok(200));
    assert_eq!(decode_i8(&mut d), Ok(-5));
    assert_eq!(decode_u16(&mut d), Ok(0xBEEF));
    assert_eq!(decode_i16(&mut d), Ok(-12345));
    assert_eq!(decode_u32(&mut d), Ok(0xDEADBEEF));
    assert_eq!(decode_i32(&mut d), Ok(i32::MIN));
    assert_eq!(decode_u64(&mut d), Ok(u64::MAX - 1));
    assert_eq!(decode_i64(&mut d), Ok(-1));
    assert_eq!(d.remaining(), 0);
}

#[test]
fn round_trip_string_and_records() {
    let topic = "héllo wörld".to_string();
    let records = vec![1u32, 0xFFFF_FFFF, 7];
    let mut buf: Vec<u8> = Vec::new();
    encode_string(&topic, &mut buf);
    encode_u32_vec(&records, &mut buf);
    assert_eq!(buf.len(), string_size(&topic) + u32_vec_size(&records));
    assert_eq!(u32_vec_size(&records), 8 + 12);

    let mut d = ByteDecoder::new(buf.as_slice());
    assert_eq!(decode_string(&mut d), Ok(topic));
    assert_eq!(decode_u32_vec(&mut d), Ok(records));
    assert_eq!(d.remaining(), 0);
}

#[test]
fn empty_string_and_vector() {
    let mut buf: Vec<u8> = Vec::new();
    encode_string(&String::new(), &mut buf);
    encode_u32_vec(&Vec::new(), &mut buf);
    assert_eq!(buf, vec![0u8; 16]);
    let mut d = ByteDecoder::new(buf.as_slice());
    assert_eq!(decode_string(&mut d), Ok(String::new()));
    assert_eq!(decode_u32_vec(&mut d), Ok(Vec::new()));
}

#[test]
fn big_endian_literals() {
    let buf = [0x01u8, 0x02, 0x00, 0x00, 0x01, 0x00, 0xFF];
    let mut d = ByteDecoder::new(&buf);
    assert_eq!(decode_u16(&mut d), Ok(258));
    assert_eq!(decode_u32(&mut d), Ok(256));
    assert_eq!(decode_i8(&mut d), Ok(-1));
    assert_eq!(d.offset(), 7);
}

#[test]
fn truncated_input_is_refused() {
    let buf = [0u8, 1, 2];
    let mut d = ByteDecoder::new(&buf);
    assert_eq!(decode_u32(&mut d), Err(DecodeError::Truncated));
    assert_eq!(d.offset(), 0);
    let mut buf2: Vec<u8> = Vec::new();
    encode_i64(5, &mut buf2);
    buf2.extend_from_slice(b"abc");
    let mut d2 = ByteDecoder::new(buf2.as_slice());
    assert_eq!(decode_string(&mut d2), Err(DecodeError::Truncated));
}

#[test]
fn negative_length_is_refused() {
    let mut buf: Vec<u8> = Vec::new();
    encode_i64(-1, &mut buf);
    let mut d = ByteDecoder::new(buf.as_slice());
    assert_eq!(decode_string(&mut d), Err(DecodeError::NegativeLength));
    let mut d2 = ByteDecoder::new(buf.as_slice());
    assert_eq!(decode_u32_vec(&mut d2), Err(DecodeError::NegativeLength));
}

#[test]
fn invalid_utf8_is_refused() {
    let mut buf: Vec<u8> = Vec::new();
    encode_i64(2, &mut buf);
    buf.push(0xC3);
    buf.push(0x28);
    let mut d = ByteDecoder::new(buf.as_slice());
    assert_eq!(decode_string(&mut d), Err(DecodeError::InvalidUtf8));
}

#[test]
fn decoder_next_takes_bytes_in_order() {
    let buf = [1u8, 2, 3, 4, 5];
    let mut d = ByteDecoder::new(&buf);
    assert_eq!(d.next(2), &[1u8, 2][..]);
    assert_eq!(d.next(3), &[3u8, 4, 5][..]);
    assert_eq!(d.len(), 5);
    assert_eq!(d.remaining(), 0);
}

#[test]
fn i8_vector_size_is_exact() {
    let v = vec![2i8, 4i8, 8i8, 16i8];
    let mut buf: Vec<u8> = Vec::new();
    encode_i8_vec(&v, &mut buf);
    assert_eq!(i8_vec_size(&v), 12);
    assert_eq!(buf.len(), i8_vec_size(&v));
}
