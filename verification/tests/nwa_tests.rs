use vnm_player::error::DecoderError;
use vnm_player::nwa::{
    decode_pcm, duration_ms, read_header, read_offsets, samples_at_ms, NwaHeader, NwaStream,
};
use vnm_player::nwa_dpcm::{decode_dpcm, get_bits, DpcmParams};
use vnm_player::text::int_text;

#[allow(clippy::too_many_arguments)]
fn header_bytes(
    channels: u16,
    bps: u16,
    rate: u32,
    comp: i32,
    run: i32,
    blocks: i32,
    data_size: i32,
    comp_size: i32,
    samples: i32,
    block_size: i32,
    rest_size: i32,
) -> Vec<u8> {
    let mut v = Vec::new();
    v.extend_from_slice(&channels.to_le_bytes());
    v.extend_from_slice(&bps.to_le_bytes());
    v.extend_from_slice(&rate.to_le_bytes());
    for x in [comp, run, blocks, data_size, comp_size, samples, block_size, rest_size] {
        v.extend_from_slice(&x.to_le_bytes());
    }
    v.extend_from_slice(&[0u8; 4]);
    assert_eq!(v.len(), 44);
    v
}

fn unsupported(r: Result<NwaHeader, DecoderError>) -> String {
    match r {
        Err(DecoderError::UnsupportedFormat(m)) => m,
        other => panic!("unexpected {:?}", other),
    }
}

#[test]
fn get_bits_reads_little_endian_bits() {
    let data = [0b1010_1100u8, 0b0000_0001, 0xff];
    let mut idx = 0usize;
    let mut shift = 0u32;
    assert_eq!(get_bits(&data, &mut idx, &mut shift, 3), 0b100);
    assert_eq!(shift, 3);
    assert_eq!(get_bits(&data, &mut idx, &mut shift, 8), 0b0011_0101);
    assert_eq!(shift, 11);
    assert_eq!(get_bits(&data, &mut idx, &mut shift, 2), 0b00);
    assert_eq!((idx, shift), (1, 5));
    assert_eq!(get_bits(&data, &mut idx, &mut shift, 8), 0b1111_1000);
    assert_eq!((idx, shift), (1, 13));
    // fewer than two bytes left: zero, bit position kept
    assert_eq!(get_bits(&data, &mut idx, &mut shift, 4), 0);
    assert_eq!((idx, shift), (2, 5));
}

#[test]
fn compressed_header_is_read_as_stored() {
    let h = read_header(&header_bytes(2, 16, 44100, 3, 1, 10, 999, 5000, 176400, 4096, 100)).unwrap();
    assert_eq!(h.channels, 2);
    assert_eq!(h.bps, 16);
    assert_eq!(h.sample_rate, 44100);
    assert_eq!(h.comp_level, 3);
    assert_eq!(h.use_run_length, 1);
    assert_eq!(h.block_count, 10);
    assert_eq!(h.block_size, 4096);
    assert_eq!(h.rest_size, 100);
    assert_eq!(h.sample_count, 176400);
}

#[test]
fn uncompressed_header_derives_layout() {
    // 16-bit: 131072 bytes per block; 300000 bytes = 2 blocks + 37856 bytes
    let h = read_header(&header_bytes(2, 16, 44100, -1, 0, 0, 300000, 0, 150000, 0, 0)).unwrap();
    assert_eq!(h.block_size, 65536);
    assert_eq!(h.rest_size, 18928);
    assert_eq!(h.block_count, 3);
    // 8-bit, an exact multiple: no partial block
    let h = read_header(&header_bytes(1, 8, 22050, -1, 0, 0, 131072, 0, 131072, 0, 0)).unwrap();
    assert_eq!(h.rest_size, 0);
    assert_eq!(h.block_count, 2);
}

#[test]
fn header_errors_name_the_value() {
    assert_eq!(
        unsupported(read_header(&header_bytes(3, 16, 44100, 0, 0, 1, 0, 10, 0, 1, 1))),
        "NWA: only mono/stereo supported, got 3 channels"
    );
    assert_eq!(
        unsupported(read_header(&header_bytes(1, 24, 44100, 0, 0, 1, 0, 10, 0, 1, 1))),
        "NWA: only 8/16 bit supported, got 24 bits"
    );
    assert_eq!(
        unsupported(read_header(&header_bytes(1, 8, 44100, 6, 0, 1, 0, 10, 0, 1, 1))),
        "NWA: unsupported compression level 6"
    );
    assert_eq!(
        unsupported(read_header(&header_bytes(1, 8, 44100, -2, 0, 1, 0, 10, 0, 1, 1))),
        "NWA: unsupported compression level -2"
    );
    assert_eq!(
        unsupported(read_header(&header_bytes(1, 8, 44100, 0, 0, 0, 0, 10, 0, 1, 1))),
        "NWA: invalid block count 0"
    );
    assert_eq!(
        unsupported(read_header(&header_bytes(1, 8, 44100, 0, 0, 1_000_001, 0, 10, 0, 1, 1))),
        "NWA: invalid block count 1000001"
    );
    // uncompressed with a negative data size
    assert_eq!(
        unsupported(read_header(&header_bytes(1, 16, 44100, -1, 0, 5, -200000, 0, 0, 0, 0))),
        "NWA: invalid block count -1"
    );
}

#[test]
fn offsets_are_read_and_checked() {
    let h = read_header(&header_bytes(1, 16, 44100, 5, 0, 2, 0, 100, 7, 4, 3)).unwrap();
    let mut table = Vec::new();
    table.extend_from_slice(&52i32.to_le_bytes());
    table.extend_from_slice(&58i32.to_le_bytes());
    assert_eq!(read_offsets(&h, &table).unwrap(), vec![52, 58]);
    let h2 = read_header(&header_bytes(1, 16, 44100, 5, 0, 2, 0, 58, 7, 4, 3)).unwrap();
    match read_offsets(&h2, &table) {
        Err(DecoderError::Decode(m)) => assert_eq!(m, "NWA: last offset overruns file"),
        other => panic!("unexpected {:?}", other),
    }
    let hu = read_header(&header_bytes(1, 16, 44100, -1, 0, 0, 1000, 0, 500, 0, 0)).unwrap();
    assert_eq!(read_offsets(&hu, &[]).unwrap(), Vec::<i32>::new());
}

#[test]
fn duration_divides_by_rate_and_channels() {
    assert_eq!(duration_ms(176400, 44100, 2), 2000);
    assert_eq!(duration_ms(44099, 44100, 1), 999);
    assert_eq!(duration_ms(1000, 0, 2), 0);
    assert_eq!(duration_ms(1000, 44100, 0), 0);
    // a negative count is taken as unsigned and the product wraps
    let expected = ((-1i32) as u64).wrapping_mul(1000) / 44100;
    assert_eq!(duration_ms(-1, 44100, 1), expected);
}

#[test]
fn samples_at_ms_counts_all_channels() {
    assert_eq!(samples_at_ms(1500, 44100, 2), 132300);
    assert_eq!(samples_at_ms(1, 44100, 1), 44);
}

#[test]
fn pcm_blocks_decode() {
    assert_eq!(decode_pcm(&[0x01, 0x00, 0xff, 0xff, 0x00, 0x80, 0x7f], true), vec![1, -1, -32768]);
    assert_eq!(decode_pcm(&[0x00, 0x01, 0x7f, 0x80, 0xff], false), vec![0, 256, 32512, -32768, -256]);
}

const RAW: [u8; 12] = [0x34, 0x12, 0xa7, 0x5b, 0xc3, 0x0f, 0xe1, 0x99, 0x42, 0x7e, 0x01, 0xff];

#[test]
fn dpcm_mono_16bit_level5() {
    let p = DpcmParams { stereo: false, comp_level: 5, run_length: false };
    assert_eq!(
        decode_dpcm(&RAW, 12, p, true),
        vec![6900, 6676, 916, 420, 420, 1380, 3940, 4948, 4564, 4564, 4564, 4564]
    );
}

#[test]
fn dpcm_stereo_16bit_level2_with_runs() {
    let p = DpcmParams { stereo: true, comp_level: 2, run_length: true };
    assert_eq!(
        decode_dpcm(&RAW, 12, p, true),
        vec![4148, 23463, 4084, 23431, 4468, 23943, 3700, 23943, 3700, 11655, 3700, 11559]
    );
}

#[test]
fn dpcm_stereo_8bit_level0() {
    let p = DpcmParams { stereo: true, comp_level: 0, run_length: false };
    assert_eq!(
        decode_dpcm(&RAW, 10, p, false),
        vec![436, 50, -29260, 818, -30220, 818, -30348, 1010, -30348, 50]
    );
}

#[test]
fn dpcm_mono_8bit_level3_with_runs() {
    let p = DpcmParams { stereo: false, comp_level: 3, run_length: true };
    assert_eq!(
        decode_dpcm(&RAW, 10, p, false),
        vec![244, 176, 292, 500, 1492, 1492, 1268, 1288, 1048, 1048]
    );
}

#[test]
fn dpcm_zero_bits_keep_the_start_value() {
    let p = DpcmParams { stereo: false, comp_level: 5, run_length: false };
    assert_eq!(decode_dpcm(&[0x10, 0, 0, 0], 4, p, true), vec![16, 16, 16, 16]);
}

fn compressed_stream() -> NwaStream {
    let h = read_header(&header_bytes(1, 16, 1000, 5, 0, 2, 0, 100, 7, 4, 3)).unwrap();
    let mut table = Vec::new();
    table.extend_from_slice(&52i32.to_le_bytes());
    table.extend_from_slice(&58i32.to_le_bytes());
    let offsets = read_offsets(&h, &table).unwrap();
    NwaStream::new(h, offsets)
}

#[test]
fn compressed_stream_reads_blocks_in_order() {
    let mut s = compressed_stream();
    assert_eq!(s.duration_ms, 7);
    assert!(s.needs_block());
    assert_eq!(s.next_block(), Some((4, 6)));
    assert_eq!(s.load_block(&[0x34, 0x12, 0xa7, 0x5b, 0xc3, 0x0f]).unwrap(), 4);
    assert_eq!(s.take_samples(3), vec![6900, 6676, 916]);
    assert_eq!(s.take_samples(3), vec![420]);
    assert_eq!(s.total_samples, 4);
    assert!(s.needs_block());
    // the last block is read with up to twice a block's bytes
    assert_eq!(s.next_block(), Some((3, 16)));
    assert_eq!(s.load_block(&[0xe1, 0x99, 0x42, 0x7e, 0x01, 0xff]).unwrap(), 3);
    assert_eq!(s.take_samples(10), vec![-25903, -25743, -25995]);
    assert_eq!(s.next_block(), None);
    assert!(matches!(s.load_block(&[1, 2, 3, 4]), Err(DecoderError::EndOfStream)));
    assert!(s.take_samples(4).is_empty());
}

#[test]
fn empty_read_is_end_of_stream() {
    let mut s = compressed_stream();
    match s.load_block(&[]) {
        Err(DecoderError::EndOfStream) => {}
        other => panic!("unexpected {:?}", other),
    }
    assert_eq!(s.cur_block, -1);
}

#[test]
fn compressed_seek_moves_to_the_block() {
    let mut s = compressed_stream();
    let target = s.seek_target(5);
    assert_eq!(target, 5);
    assert_eq!(s.seek_position(target).unwrap(), Some(58));
    s.reposition(target);
    assert_eq!(s.cur_block, 0);
    assert!(s.needs_block());
    assert_eq!(s.load_block(&[0xe1, 0x99, 0x42, 0x7e, 0x01, 0xff]).unwrap(), 3);
    s.finish_seek(target);
    assert_eq!(s.decoded_pos, 1);
    assert_eq!(s.total_samples, 5);
    assert_eq!(s.take_samples(5), vec![-25743, -25995]);
    // the block of the current one needs no move; one past the table is an error
    assert_eq!(s.seek_position(4).unwrap(), None);
    match s.seek_position(9) {
        Err(DecoderError::SeekError(m)) => assert_eq!(m, "block index out of range"),
        other => panic!("unexpected {:?}", other),
    }
}

#[test]
fn uncompressed_stream_reads_and_seeks() {
    let h = read_header(&header_bytes(1, 16, 8000, -1, 0, 0, 6, 0, 3, 0, 0)).unwrap();
    assert_eq!((h.block_count, h.rest_size), (1, 3));
    let mut s = NwaStream::new(h, Vec::new());
    assert_eq!(s.next_block(), Some((3, 6)));
    assert_eq!(s.load_block(&[1, 0, 2, 0, 3]).unwrap(), 2);
    assert_eq!(s.take_samples(8), vec![1, 2]);
    assert_eq!(s.next_block(), None);
    let target = s.seek_target(0);
    assert_eq!(s.seek_position(target).unwrap(), Some(0x2c));
    s.reposition(target);
    assert_eq!(s.cur_block, -1);
    assert_eq!(s.load_block(&[1, 0, 2, 0, 3, 0]).unwrap(), 3);
    s.finish_seek(target);
    assert_eq!(s.take_samples(8), vec![1, 2, 3]);
}

#[test]
fn uncompressed_seek_lands_on_the_target_sample() {
    // 8-bit mono, 65540 bytes: one full block and a block of 4 samples
    let h = read_header(&header_bytes(1, 8, 65536, -1, 0, 0, 65540, 0, 65540, 0, 0)).unwrap();
    assert_eq!((h.block_count, h.rest_size), (2, 4));
    let mut s = NwaStream::new(h, Vec::new());
    let target = 65537;
    // the file moves to the first byte of the second block
    assert_eq!(s.seek_position(target).unwrap(), Some(0x2c + 65536));
    s.reposition(target);
    assert_eq!(s.cur_block, 0);
    assert_eq!(s.next_block(), Some((4, 4)));
    assert_eq!(s.load_block(&[1, 2, 3, 4]).unwrap(), 4);
    s.finish_seek(target);
    assert_eq!(s.total_samples, 65537);
    // the next sample is the one at the target (byte 65537 of the data: 2)
    assert_eq!(s.take_samples(1), vec![512]);
    // 16-bit: the block start is counted in bytes per sample
    let h = read_header(&header_bytes(2, 16, 44100, -1, 0, 0, 400000, 0, 200000, 0, 0)).unwrap();
    let s = NwaStream::new(h, Vec::new());
    assert_eq!(s.seek_position(70000).unwrap(), Some(0x2c + 65536 * 2));
}

#[test]
fn get_bits_past_the_data_answers_zero() {
    let data = [0xffu8, 0xff, 0xff];
    let mut idx = 10usize;
    let mut shift = 0u32;
    assert_eq!(get_bits(&data, &mut idx, &mut shift, 8), 0);
    assert_eq!((idx, shift), (10, 0));
    let mut idx = 5usize;
    let mut shift = 12u32;
    assert_eq!(get_bits(&data, &mut idx, &mut shift, 3), 0);
    assert_eq!((idx, shift), (6, 4));
    let four = [0xffu8, 0xff, 0xff, 0xff];
    let mut idx = 1usize;
    let mut shift = 20u32;
    assert_eq!(get_bits(&four, &mut idx, &mut shift, 4), 0xf);
    assert_eq!((idx, shift), (2, 16));
}

#[test]
fn integers_print_in_decimal() {
    assert_eq!(int_text(0), "0");
    assert_eq!(int_text(7), "7");
    assert_eq!(int_text(1234567890), "1234567890");
    assert_eq!(int_text(-42), "-42");
    assert_eq!(int_text(i64::MIN), i64::MIN.to_string());
    assert_eq!(int_text(i64::MAX), i64::MAX.to_string());
}
