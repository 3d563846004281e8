//! Exercises the word codec and the selector dispatcher end to end on
//! raw byte buffers.

fn word_of_u64(v: u64) -> Vec<u8> {
    let mut w = vec![0u8; 32];
    w[24..32].copy_from_slice(&v.to_be_bytes());
    w
}

fn word_of_u32(v: u32) -> Vec<u8> {
    let mut w = vec![0u8; 32];
    w[28..32].copy_from_slice(&v.to_be_bytes());
    w
}

fn request(selector: u32, words: &[Vec<u8>]) -> Vec<u8> {
    let mut input = selector.to_be_bytes().to_vec();
    for w in words {
        input.extend_from_slice(w);
    }
    input
}

#[test]
fn u64_word_round_trip() {
    for &v in &[0u64, 1, 255, 256, 0xDEAD_BEEF, u64::MAX, u64::MAX - 1] {
        let w = mathcore::u64_to_abi_word(v);
        assert_eq!(w.len(), 32);
        assert_eq!(&w[..24], &[0u8; 24]);
        assert_eq!(mathcore::u64_from_abi_word(&w), v);
        assert_eq!(w, word_of_u64(v));
    }
}

#[test]
fn i64_word_round_trip() {
    for &v in &[0i64, 1, -1, i64::MAX, i64::MIN, -123_456_789] {
        let w = mathcore::i64_to_abi_word(v);
        assert_eq!(mathcore::i64_from_abi_word(&w), v);
    }
}

#[test]
fn u32_word_round_trip() {
    for &v in &[0u32, 7, 0xFFFF_FFFF] {
        let w = mathcore::u32_to_abi_word(v);
        assert_eq!(mathcore::u32_from_abi_word(&w), v);
        assert_eq!(w, word_of_u32(v));
    }
}

#[test]
fn dirty_high_bytes_are_ignored() {
    let mut w = word_of_u64(77);
    w[0] = 0xAA;
    w[10] = 0xBB;
    assert_eq!(mathcore::u64_from_abi_word(&w), 77);
}

#[test]
fn option_u64_round_trip() {
    for opt in [Some(0u64), Some(42), Some(u64::MAX), None] {
        let bytes = mathcore::encode_option_u64(opt);
        assert_eq!(bytes.len(), 64);
        let present = bytes[31] == 1;
        let decoded = if present {
            Some(mathcore::u64_from_abi_word(&bytes[32..64]))
        } else {
            assert_eq!(&bytes[32..], &[0u8; 32]);
            None
        };
        assert_eq!(decoded, opt);
    }
}

#[test]
fn option_i64_encoding() {
    let bytes = mathcore::encode_option_i64(Some(-5));
    assert_eq!(bytes[31], 1);
    assert_eq!(mathcore::i64_from_abi_word(&bytes[32..64]), -5);
    let absent = mathcore::encode_option_i64(None);
    assert_eq!(absent[31], 0);
    assert_eq!(&absent[32..], &[0u8; 32]);
}

#[test]
fn point_round_trip() {
    let xw = mathcore::u64_to_abi_word(7);
    let yw = mathcore::u64_to_abi_word(9);
    assert_eq!(
        mathcore::point_from_abi_words(&xw, &yw),
        mathcore::Point::Coordinate { x: 7, y: 9 }
    );
    let sentinel = mathcore::u64_to_abi_word(u64::MAX);
    assert_eq!(
        mathcore::point_from_abi_words(&sentinel, &sentinel),
        mathcore::Point::Infinity
    );
    for p in [
        mathcore::Point::Infinity,
        mathcore::Point::Coordinate { x: 0, y: 0 },
        mathcore::Point::Coordinate { x: u64::MAX, y: 3 },
    ] {
        let bytes = mathcore::encode_option_point(Some(p));
        assert_eq!(bytes.len(), 96);
        assert_eq!(bytes[31], 1);
        assert_eq!(mathcore::point_from_abi_words(&bytes[32..64], &bytes[64..96]), p);
    }
    let absent = mathcore::encode_option_point(None);
    assert_eq!(absent[31], 0);
    assert_eq!(&absent[32..], &[0u8; 64]);
}

#[test]
fn unknown_selector_yields_zero_word() {
    let response = mathcore::dispatch(&request(0xFF, &[]));
    assert_eq!(response, Some(vec![0u8; 32]));
    let response_high = mathcore::dispatch(&request(0xABCD, &[word_of_u64(9)]));
    assert_eq!(response_high, Some(vec![0u8; 32]));
    let response_zero = mathcore::dispatch(&request(0, &[]));
    assert_eq!(response_zero, Some(vec![0u8; 32]));
}

#[test]
fn dispatch_gcd_end_to_end() {
    let response = mathcore::dispatch(&request(0x1B, &[word_of_u64(48), word_of_u64(18)]));
    assert_eq!(response, Some(word_of_u64(6)));
}

#[test]
fn dispatch_modexp_and_fault() {
    let ok = mathcore::dispatch(
        &request(0x01, &[word_of_u64(7), word_of_u64(13), word_of_u64(101)]),
    );
    assert_eq!(ok, Some(word_of_u64(mathcore::modexp(7, 13, 101))));
    let fault = mathcore::dispatch(
        &request(0x01, &[word_of_u64(7), word_of_u64(13), word_of_u64(0)]),
    );
    assert_eq!(fault, None);
}

#[test]
fn dispatch_boolean_and_optional_responses() {
    let prime = mathcore::dispatch(&request(0x1A, &[word_of_u64(97)]));
    let mut true_word = vec![0u8; 32];
    true_word[31] = 1;
    assert_eq!(prime, Some(true_word));

    let inverse = mathcore::dispatch(&request(0x19, &[word_of_u64(3), word_of_u64(11)]));
    let bytes = inverse.unwrap();
    assert_eq!(bytes[31], 1);
    assert_eq!(mathcore::i64_from_abi_word(&bytes[32..64]), 4);

    let no_inverse = mathcore::dispatch(&request(0x19, &[word_of_u64(2), word_of_u64(4)]));
    let bytes = no_inverse.unwrap();
    assert_eq!(bytes[31], 0);
}

#[test]
fn dispatch_vector_pair_output() {
    let response = mathcore::dispatch(
        &request(0x12, &[word_of_u64(1), word_of_u64(2), word_of_u64(3), word_of_u64(4)]),
    );
    let bytes = response.unwrap();
    assert_eq!(bytes.len(), 64);
    assert_eq!(mathcore::u64_from_abi_word(&bytes[0..32]), 4);
    assert_eq!(mathcore::u64_from_abi_word(&bytes[32..64]), 6);
}

#[test]
fn dispatch_point_addition() {
    let p_words = [word_of_u64(5), word_of_u64(1)];
    let inf = word_of_u64(u64::MAX);
    let response = mathcore::dispatch(&request(
        0x29,
        &[
            p_words[0].clone(),
            p_words[1].clone(),
            inf.clone(),
            inf.clone(),
            word_of_u64(2),
            word_of_u64(17),
        ],
    ));
    let bytes = response.unwrap();
    assert_eq!(bytes[31], 1);
    assert_eq!(mathcore::u64_from_abi_word(&bytes[32..64]), 5);
    assert_eq!(mathcore::u64_from_abi_word(&bytes[64..96]), 1);
}

#[test]
fn dispatch_short_input_reads_zeros() {
    // a bare selector with no argument words decodes all-zero arguments
    let response = mathcore::dispatch(&request(0x1B, &[]));
    assert_eq!(response, Some(word_of_u64(0)));
    let sqrt_short = mathcore::dispatch(&request(0x03, &[]));
    assert_eq!(sqrt_short, Some(word_of_u64(0)));
}

#[test]
fn dispatch_square_root_fault_on_overflow_domain() {
    let fault = mathcore::dispatch(&request(0x03, &[word_of_u64(u64::MAX)]));
    assert_eq!(fault, None);
    let ok = mathcore::dispatch(&request(0x03, &[word_of_u64(200)]));
    assert_eq!(ok, Some(word_of_u64(141)));
}

#[test]
fn dispatch_constant_time_eq_compares_whole_words() {
    let mut dirty = word_of_u64(5);
    dirty[0] = 1;
    let clean = word_of_u64(5);
    let differing = mathcore::dispatch(&request(0x26, &[dirty, clean.clone()]));
    let bytes = differing.unwrap();
    assert_eq!(bytes[31], 0);
    let equal = mathcore::dispatch(&request(0x26, &[clean.clone(), clean]));
    let bytes = equal.unwrap();
    assert_eq!(bytes[31], 1);
}

#[test]
fn dispatch_trajectory_words() {
    let response = mathcore::dispatch(
        &request(0x2B, &[word_of_u32(450), word_of_u64(1000), word_of_u64(981)]),
    );
    let bytes = response.unwrap();
    assert_eq!(mathcore::i64_from_abi_word(&bytes[0..32]), 100);
    assert_eq!(mathcore::i64_from_abi_word(&bytes[32..64]), -10);
}

#[test]
fn dispatch_signed_sine_word() {
    let response = mathcore::dispatch(&request(0x07, &[word_of_u32(2700)]));
    let bytes = response.unwrap();
    assert_eq!(mathcore::i64_from_abi_word(&bytes), -100);
    let response = mathcore::dispatch(&request(0x08, &[word_of_u32(0)]));
    let bytes = response.unwrap();
    assert_eq!(mathcore::i64_from_abi_word(&bytes), 100);
}

#[test]
fn dispatch_factorial_and_log_optionals() {
    let present = mathcore::dispatch(&request(0x1D, &[word_of_u64(5)])).unwrap();
    assert_eq!(present[31], 1);
    assert_eq!(mathcore::u64_from_abi_word(&present[32..64]), 120);
    let absent = mathcore::dispatch(&request(0x1D, &[word_of_u64(21)])).unwrap();
    assert_eq!(absent[31], 0);

    let log = mathcore::dispatch(&request(0x1F, &[word_of_u64(1024)])).unwrap();
    assert_eq!(log[31], 1);
    assert_eq!(mathcore::u32_from_abi_word(&log[32..64]), 10);
    let log_zero = mathcore::dispatch(&request(0x1F, &[word_of_u64(0)])).unwrap();
    assert_eq!(log_zero[31], 0);
}

#[test]
fn dispatch_point_double_faults_on_out_of_field_coordinates() {
    // the abscissa 20 is no element of the field modulo 17
    let fault = mathcore::dispatch(&request(
        0x2A,
        &[word_of_u64(20), word_of_u64(1), word_of_u64(2), word_of_u64(17)],
    ));
    assert_eq!(fault, None);
    let ok = mathcore::dispatch(&request(
        0x2A,
        &[word_of_u64(5), word_of_u64(1), word_of_u64(2), word_of_u64(17)],
    ));
    let bytes = ok.unwrap();
    assert_eq!(bytes[31], 1);
    assert_eq!(mathcore::u64_from_abi_word(&bytes[32..64]), 6);
    assert_eq!(mathcore::u64_from_abi_word(&bytes[64..96]), 3);
}

#[test]
fn dispatch_clamp_vector_words() {
    let response = mathcore::dispatch(&request(
        0x0F,
        &[word_of_u64(300), word_of_u64(400), word_of_u64(250)],
    ));
    let bytes = response.unwrap();
    assert_eq!(mathcore::u64_from_abi_word(&bytes[0..32]), 150);
    assert_eq!(mathcore::u64_from_abi_word(&bytes[32..64]), 200);
}

#[test]
fn dispatch_xorshift_word() {
    let response = mathcore::dispatch(&request(0x28, &[word_of_u64(42)])).unwrap();
    let mut rng = mathcore::Xorshift64Star::new(42);
    assert_eq!(mathcore::u64_from_abi_word(&response), rng.next());
}
