use bacteria::genome::{
    encode_population, parse_population, read_ctrnn, read_u32, seed_slots, write_word, SavedGenome,
    CTRNN_WORDS, GENOME_BYTES, HEADER_BYTES, MAGIC, VERSION,
};

fn sample(seed: u32) -> SavedGenome {
    let ctrnn: Vec<u32> = (0..CTRNN_WORDS as u32).map(|i| i.wrapping_mul(2654435761).wrapping_add(seed)).collect();
    SavedGenome {
        ctrnn,
        metabolism: 0.015f32.to_bits(),
        curiosity: 1.25f32.to_bits(),
        sociability: (0.5f32 + seed as f32).to_bits(),
        selectivity: 0.0f32.to_bits(),
        altruism: 2.0f32.to_bits(),
    }
}

fn same(a: &SavedGenome, b: &SavedGenome) -> bool {
    a.ctrnn == b.ctrnn
        && a.metabolism == b.metabolism
        && a.curiosity == b.curiosity
        && a.sociability == b.sociability
        && a.selectivity == b.selectivity
        && a.altruism == b.altruism
}

#[test]
fn write_word_is_little_endian() {
    let mut out = Vec::new();
    write_word(&mut out, 0x0403_0201);
    write_word(&mut out, MAGIC);
    assert_eq!(out, vec![1, 2, 3, 4, 0x1B, 0xE2, 0xC7, 0xBA]);
}

#[test]
fn read_u32_advances_cursor() {
    let data = [1u8, 2, 3, 4, 5, 6, 7];
    let mut cur = 0usize;
    assert_eq!(read_u32(&data, &mut cur), Some(0x0403_0201));
    assert_eq!(cur, 4);
    assert_eq!(read_u32(&data, &mut cur), None);
    assert_eq!(cur, 4);
    let mut cur = 3usize;
    assert_eq!(read_u32(&data, &mut cur), Some(0x0706_0504));
    assert_eq!(cur, 7);
}

#[test]
fn read_ctrnn_needs_all_words() {
    let data: Vec<u8> = (0..(4 * CTRNN_WORDS + 2)).map(|i| (i % 251) as u8).collect();
    let mut cur = 2usize;
    let ws = read_ctrnn(&data, &mut cur).unwrap();
    assert_eq!(ws.len(), CTRNN_WORDS);
    assert_eq!(ws[0], u32::from_le_bytes([2, 3, 4, 5]));
    assert_eq!(cur, 2 + 4 * CTRNN_WORDS);
    let mut cur = 3usize;
    assert!(read_ctrnn(&data, &mut cur).is_none());
    assert_eq!(cur, 3 + 4 * (CTRNN_WORDS - 1));
}

#[test]
fn save_then_load_gives_back_the_genomes() {
    let gs = vec![sample(1), sample(2), sample(3)];
    let bytes = encode_population(&gs).unwrap();
    assert_eq!(bytes.len(), HEADER_BYTES + 3 * GENOME_BYTES);
    assert_eq!(&bytes[0..4], &MAGIC.to_le_bytes());
    assert_eq!(&bytes[4..8], &VERSION.to_le_bytes());
    assert_eq!(&bytes[8..12], &3u32.to_le_bytes());
    assert_eq!(&bytes[12..16], &gs[0].ctrnn[0].to_le_bytes());
    let back = parse_population(&bytes).unwrap();
    assert_eq!(back.len(), 3);
    for i in 0..3 {
        assert!(same(&back[i], &gs[i]));
    }
    assert_eq!(f32::from_bits(back[0].curiosity), 1.25);
}

#[test]
fn nothing_to_save() {
    assert!(encode_population(&[]).is_none());
}

#[test]
fn short_or_foreign_files_are_refused() {
    let bytes = encode_population(&[sample(9)]).unwrap();
    assert!(parse_population(&bytes[..11]).is_none());
    assert!(parse_population(&bytes[..bytes.len() - 1]).is_none());
    let mut wrong_magic = bytes.clone();
    wrong_magic[0] ^= 1;
    assert!(parse_population(&wrong_magic).is_none());
    let mut wrong_version = bytes.clone();
    wrong_version[4] = 2;
    assert!(parse_population(&wrong_version).is_none());
    let mut too_many = bytes.clone();
    too_many[8] = 2;
    assert!(parse_population(&too_many).is_none());
    assert!(parse_population(&[]).is_none());
}

#[test]
fn trailing_bytes_are_ignored_and_zero_count_is_empty() {
    let mut bytes = encode_population(&[sample(4)]).unwrap();
    bytes.extend_from_slice(&[9, 9, 9]);
    let back = parse_population(&bytes).unwrap();
    assert_eq!(back.len(), 1);
    assert!(same(&back[0], &sample(4)));
    let mut header = Vec::new();
    write_word(&mut header, MAGIC);
    write_word(&mut header, VERSION);
    write_word(&mut header, 0);
    assert_eq!(parse_population(&header).unwrap().len(), 0);
}

#[test]
fn seed_slots_expand_to_eight() {
    let s = seed_slots(3).unwrap();
    assert_eq!(s.len(), 8);
    let sources: Vec<usize> = s.iter().map(|x| x.source).collect();
    assert_eq!(sources, vec![0, 1, 2, 0, 1, 2, 0, 1]);
    let positions: Vec<usize> = s.iter().map(|x| x.position).collect();
    assert_eq!(positions, vec![0, 128, 256, 384, 512, 640, 768, 896]);
    let pcts: Vec<u32> = s.iter().map(|x| x.heritage_pct).collect();
    assert_eq!(pcts, vec![70, 70, 70, 50, 50, 50, 50, 50]);
    assert!(s[2].direct && !s[3].direct);
}

#[test]
fn seed_slots_keep_a_large_population() {
    let s = seed_slots(20).unwrap();
    assert_eq!(s.len(), 20);
    assert!(s.iter().all(|x| x.direct && x.heritage_pct == 70));
    assert_eq!(s[19].source, 19);
    assert_eq!(s[19].position, 19 * 51);
    let one = seed_slots(1).unwrap();
    assert_eq!(one.len(), 8);
    assert!(one.iter().all(|x| x.source == 0));
}

#[test]
fn no_founders_without_genomes() {
    assert!(seed_slots(0).is_none());
}
