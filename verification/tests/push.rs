use wgpu_isp::push::{
    encode_words, to_word, AutoWhiteBalancePush, BlackLevelPush, ColorCorrectionPush, DebayerPush,
    GammaPush,
};

#[test]
fn words_are_written_lowest_byte_first() {
    assert_eq!(encode_words(&[0x0403_0201]), vec![1, 2, 3, 4]);
    assert_eq!(encode_words(&[0, u32::MAX, 256]), vec![0, 0, 0, 0, 255, 255, 255, 255, 0, 1, 0, 0]);
    assert_eq!(encode_words(&[]), Vec::<u8>::new());
}

#[test]
fn words_agree_with_the_bytes_of_the_float() {
    for value in [0.0f32, 1.0, -1.0, 0.5, 2.2, 1.0e-3, f32::MAX] {
        assert_eq!(encode_words(&[value.to_bits()]), value.to_le_bytes().to_vec());
        assert_eq!(encode_words(&[value.to_bits()]), bytemuck::bytes_of(&value.to_bits().to_le()).to_vec());
    }
}

#[test]
fn signed_values_are_in_twos_complement() {
    assert_eq!(to_word(0), 0);
    assert_eq!(to_word(1), 1);
    assert_eq!(to_word(i32::MAX), 0x7fff_ffff);
    assert_eq!(to_word(-1), u32::MAX);
    assert_eq!(to_word(i32::MIN), 0x8000_0000);
    assert_eq!(DebayerPush { enabled: -2 }.bytes(), (-2i32).to_le_bytes().to_vec());
    assert_eq!(DebayerPush { enabled: 1 }.bytes(), vec![1, 0, 0, 0]);
    assert_eq!(DebayerPush { enabled: 0 }.bytes(), vec![0, 0, 0, 0]);
}

#[test]
fn black_level_block_holds_its_fields_in_order() {
    let block = BlackLevelPush {
        r_offset: 1,
        gr_offset: 2,
        gb_offset: 3,
        b_offset: 4,
        alpha: 5,
        beta: 0x0600_0000,
    };
    assert_eq!(
        block.bytes(),
        vec![1, 0, 0, 0, 2, 0, 0, 0, 3, 0, 0, 0, 4, 0, 0, 0, 5, 0, 0, 0, 0, 0, 0, 6]
    );
    assert_eq!(BlackLevelPush::default().bytes(), vec![0; 24]);
}

#[test]
fn gain_and_tone_blocks_have_their_lengths() {
    assert_eq!(AutoWhiteBalancePush { gain: 1.0f32.to_bits() }.bytes(), vec![0, 0, 0x80, 0x3f]);
    assert_eq!(
        GammaPush { gain: 1.0f32.to_bits(), gamma: 2.0f32.to_bits() }.bytes(),
        vec![0, 0, 0x80, 0x3f, 0, 0, 0, 0x40]
    );
}

#[test]
fn colour_matrix_is_written_column_by_column() {
    let matrix = glam::Mat4::from_cols_array(&[
        1.0, 2.0, 3.0, 4.0, 5.0, 6.0, 7.0, 8.0, 9.0, 10.0, 11.0, 12.0, 13.0, 14.0, 15.0, 16.0,
    ]);
    let mut words = [0u32; 16];
    for (word, value) in words.iter_mut().zip(matrix.to_cols_array()) {
        *word = value.to_bits();
    }
    let bytes = ColorCorrectionPush { color_correction_matrix: words }.bytes();
    assert_eq!(bytes.len(), 64);
    let mut expected = Vec::new();
    for value in matrix.to_cols_array() {
        expected.extend_from_slice(&value.to_le_bytes());
    }
    assert_eq!(bytes, expected);
    assert_eq!(&bytes[4..8], &2.0f32.to_le_bytes());
}
