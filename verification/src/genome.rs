//! Binary format of a saved population, and the plan by which a loaded
//! population is expanded into the founders of the next run.
//!
//! A file is a header of three little-endian 32-bit words (magic, version,
//! number of genomes) followed by one record per genome: the 401 network
//! weights (recurrent weights, input weights, biases, raw time constants,
//! output weights, output biases) and the 5 traits (metabolism, curiosity,
//! sociability, selectivity, altruism), each a 32-bit word. The library
//! handles every value as the bit pattern of the 32-bit float it stands for.

use vstd::prelude::*;
use crate::grid::GRID_SIZE;

verus! {

pub const MAGIC: u32 = 0xBAC7_E21B;
pub const VERSION: u32 = 3;
/// Words of a network: 12*12 + 12*14 + 12 + 12 + 5*12 + 5.
pub const CTRNN_WORDS: usize = 401;
/// Words of one saved genome: the network and the 5 traits.
pub const GENOME_WORDS: usize = 406;
pub const GENOME_BYTES: usize = 1624;
pub const HEADER_BYTES: usize = 12;
/// A loaded population is always expanded to at least this many founders.
pub const MIN_SEED_POP: usize = 8;
/// Percentage of network genes taken from the saved genome by a founder
/// that stands for it directly.
pub const DIRECT_HERITAGE_PCT: u32 = 70;
/// Percentage taken by an extra founder, made to fill the population up.
pub const EXTRA_HERITAGE_PCT: u32 = 50;

/// One saved genome, every value held as the bit pattern of its float.
pub struct SavedGenome {
    /// The 401 network weights, in file order.
    pub ctrnn: Vec<u32>,
    pub metabolism: u32,
    pub curiosity: u32,
    pub sociability: u32,
    pub selectivity: u32,
    pub altruism: u32,
}

impl View for SavedGenome {
    type V = Seq<u32>;

    /// The words of the record, in file order.
    open spec fn view(&self) -> Seq<u32> {
        self.ctrnn@ + seq![self.metabolism, self.curiosity, self.sociability, self.selectivity, self.altruism]
    }
}

impl SavedGenome {
    /// A genome holds a whole network.
    pub open spec fn wf(&self) -> bool {
        self.ctrnn@.len() == CTRNN_WORDS
    }
}

pub open spec fn genomes_view(v: Seq<SavedGenome>) -> Seq<Seq<u32>> {
    v.map_values(|g: SavedGenome| g@)
}

/// The little-endian value of the four bytes at `off`.
pub open spec fn le_word_int(b: Seq<u8>, off: int) -> int {
    b[off] as int + 256 * (b[off + 1] as int) + 65536 * (b[off + 2] as int) + 16777216 * (b[off + 3] as int)
}

pub open spec fn le_word(b: Seq<u8>, off: int) -> u32 {
    le_word_int(b, off) as u32
}

/// The four little-endian bytes of `x`.
pub open spec fn le_bytes(x: u32) -> Seq<u8> {
    seq![(x % 256) as u8, ((x / 256) % 256) as u8, ((x / 65536) % 256) as u8, (x / 16777216) as u8]
}

pub open spec fn words_bytes(ws: Seq<u32>) -> Seq<u8>
    decreases ws.len(),
{
    if ws.len() == 0 {
        Seq::empty()
    } else {
        words_bytes(ws.drop_last()) + le_bytes(ws.last())
    }
}

pub open spec fn genomes_bytes(gs: Seq<Seq<u32>>) -> Seq<u8>
    decreases gs.len(),
{
    if gs.len() == 0 {
        Seq::empty()
    } else {
        genomes_bytes(gs.drop_last()) + words_bytes(gs.last())
    }
}

/// The count word of a file of `n` genomes: `n` modulo 2^32.
pub open spec fn count_word(n: nat) -> u32 {
    (n % 0x1_0000_0000) as u32
}

/// The file written for the genomes `gs`; the count is stored modulo 2^32.
pub open spec fn encoded(gs: Seq<Seq<u32>>) -> Seq<u8> {
    le_bytes(MAGIC) + le_bytes(VERSION) + le_bytes(count_word(gs.len())) + genomes_bytes(gs)
}

/// The record that starts at byte `off`.
pub open spec fn genome_at(b: Seq<u8>, off: int) -> Seq<u32> {
    Seq::new(GENOME_WORDS as nat, |j: int| le_word(b, off + 4 * j))
}

/// What a file holds: nothing when it is shorter than the header, has another
/// magic number or version, or ends before its last record; else the
/// records that its count announces (bytes after them are ignored).
pub open spec fn parsed(b: Seq<u8>) -> Option<Seq<Seq<u32>>> {
    if b.len() < HEADER_BYTES {
        None
    } else if le_word(b, 0) != MAGIC || le_word(b, 4) != VERSION {
        None
    } else {
        let n = le_word(b, 8) as int;
        if HEADER_BYTES + n * GENOME_BYTES > b.len() {
            None
        } else {
            Some(Seq::new(n as nat, |k: int| genome_at(b, HEADER_BYTES + k * GENOME_BYTES)))
        }
    }
}

/// Whole words that remain to be read from `cur` in a buffer of `len` bytes.
pub open spec fn words_available(len: int, cur: int) -> int {
    if cur <= len {
        (len - cur) / 4
    } else {
        0
    }
}

/// Reads the little-endian word at `*cur` and moves `*cur` past it; gives
/// `None`, and leaves `*cur`, when fewer than four bytes remain.
pub fn read_u32(data: &[u8], cur: &mut usize) -> (r: Option<u32>)
    ensures
        *old(cur) + 4 <= data@.len() ==> r == Some(le_word(data@, *old(cur) as int)) && *final(cur)
            == *old(cur) + 4,
        *old(cur) + 4 > data@.len() ==> r is None && *final(cur) == *old(cur),
{
    let c = *cur;
    if c <= data.len() && data.len() - c >= 4 {
        let w: u32 = data[c] as u32 + (data[c + 1] as u32) * 256 + (data[c + 2] as u32) * 65536 + (data[c
            + 3] as u32) * 16777216;
        *cur = c + 4;
        Some(w)
    } else {
        None
    }
}

/// Reads the 401 words of a network from `*cur` on. When the data ends
/// first it gives `None`, with `*cur` past the whole words that were read.
pub fn read_ctrnn(data: &[u8], cur: &mut usize) -> (r: Option<Vec<u32>>)
    ensures
        *old(cur) + 4 * CTRNN_WORDS <= data@.len() ==> (r matches Some(ws) && ws@ =~= Seq::new(
            CTRNN_WORDS as nat,
            |j: int| le_word(data@, *old(cur) + 4 * j),
        ) && *final(cur) == *old(cur) + 4 * CTRNN_WORDS),
        *old(cur) + 4 * CTRNN_WORDS > data@.len() ==> r is None && *final(cur) == *old(cur) + 4
            * words_available(data@.len() as int, *old(cur) as int),
{
    let ghost c0: int = *cur as int;
    let mut ws: Vec<u32> = Vec::new();
    let mut k: usize = 0;
    while k < CTRNN_WORDS
        invariant
            k <= CTRNN_WORDS,
            c0 == *old(cur),
            *cur == c0 + 4 * k,
            k > 0 ==> c0 + 4 * k <= data@.len(),
            ws@.len() == k,
            forall|j: int| 0 <= j < k ==> ws@[j] == le_word(data@, c0 + 4 * j),
        decreases CTRNN_WORDS - k,
    {
        match read_u32(data, cur) {
            Some(v) => {
                ws.push(v);
            },
            None => {
                assert(words_available(data@.len() as int, c0) == k);
                return None;
            },
        }
        k = k + 1;
    }
    Some(ws)
}

/// The genomes stored in the bytes of a population file, or `None` when the
/// bytes are not such a file (see `parsed`).
pub fn parse_population(data: &[u8]) -> (r: Option<Vec<SavedGenome>>)
    ensures
        r is None <==> parsed(data@) is None,
        r matches Some(v) ==> parsed(data@) == Some(genomes_view(v@)) && forall|i: int|
            0 <= i < v@.len() ==> (#[trigger] v@[i]).wf(),
        r matches Some(v) ==> v@.len() == le_word(data@, 8),
        r matches Some(v) ==> forall|k: int|
            0 <= k < v@.len() ==> {
                let g = #[trigger] v@[k];
                let base = 12 + 1624 * k;
                &&& g.metabolism == le_word(data@, base + 1604)
                &&& g.curiosity == le_word(data@, base + 1608)
                &&& g.sociability == le_word(data@, base + 1612)
                &&& g.selectivity == le_word(data@, base + 1616)
                &&& g.altruism == le_word(data@, base + 1620)
                &&& g.ctrnn@.len() == 401
                &&& forall|j: int| 0 <= j < 401 ==> #[trigger] g.ctrnn@[j] == le_word(data@, base + 4 * j)
            },
{
    let mut cur: usize = 0;
    let magic = match read_u32(data, &mut cur) {
        Some(v) => v,
        None => return None,
    };
    let version = match read_u32(data, &mut cur) {
        Some(v) => v,
        None => return None,
    };
    let count = match read_u32(data, &mut cur) {
        Some(v) => v,
        None => return None,
    };
    if magic != MAGIC || version != VERSION {
        return None;
    }
    let n = count as usize;
    let mut out: Vec<SavedGenome> = Vec::new();
    let mut k: usize = 0;
    while k < n
        invariant
            n == le_word(data@, 8),
            le_word(data@, 0) == MAGIC,
            le_word(data@, 4) == VERSION,
            data@.len() >= HEADER_BYTES,
            k <= n,
            cur == HEADER_BYTES + k * GENOME_BYTES,
            cur <= data@.len(),
            out@.len() == k,
            forall|i: int|
                0 <= i < k ==> (#[trigger] out@[i])@ == genome_at(data@, HEADER_BYTES + i * GENOME_BYTES),
            forall|i: int| 0 <= i < k ==> (#[trigger] out@[i]).wf(),
            forall|i: int|
                0 <= i < k ==> {
                    let g = #[trigger] out@[i];
                    let base = 12 + 1624 * i;
                    &&& g.metabolism == le_word(data@, base + 1604)
                    &&& g.curiosity == le_word(data@, base + 1608)
                    &&& g.sociability == le_word(data@, base + 1612)
                    &&& g.selectivity == le_word(data@, base + 1616)
                    &&& g.altruism == le_word(data@, base + 1620)
                    &&& g.ctrnn@.len() == 401
                    &&& forall|j: int| 0 <= j < 401 ==> #[trigger] g.ctrnn@[j] == le_word(data@, base + 4 * j)
                },
        decreases n - k,
    {
        let ghost start: int = cur as int;
        let ctrnn = match read_ctrnn(data, &mut cur) {
            Some(c) => c,
            None => return None,
        };
        let metabolism = match read_u32(data, &mut cur) {
            Some(v) => v,
            None => return None,
        };
        let curiosity = match read_u32(data, &mut cur) {
            Some(v) => v,
            None => return None,
        };
        let sociability = match read_u32(data, &mut cur) {
            Some(v) => v,
            None => return None,
        };
        let selectivity = match read_u32(data, &mut cur) {
            Some(v) => v,
            None => return None,
        };
        let altruism = match read_u32(data, &mut cur) {
            Some(v) => v,
            None => return None,
        };
        let g = SavedGenome { ctrnn, metabolism, curiosity, sociability, selectivity, altruism };
        assert(g@ =~= genome_at(data@, start));
        out.push(g);
        k = k + 1;
    }
    proof {
        assert(genomes_view(out@) =~= Seq::new(
            n as nat,
            |k: int| genome_at(data@, HEADER_BYTES + k * GENOME_BYTES),
        ));
    }
    Some(out)
}

/// Appends the four little-endian bytes of `x`.
pub fn write_word(out: &mut Vec<u8>, x: u32)
    ensures
        final(out)@ == old(out)@ + le_bytes(x),
{
    out.push((x % 256) as u8);
    out.push(((x / 256) % 256) as u8);
    out.push(((x / 65536) % 256) as u8);
    out.push((x / 16777216) as u8);
    assert(out@ =~= old(out)@ + le_bytes(x));
}

/// Appends the words of a network in order.
pub fn write_ctrnn(out: &mut Vec<u8>, ws: &Vec<u32>)
    ensures
        final(out)@ == old(out)@ + words_bytes(ws@),
{
    let mut k: usize = 0;
    while k < ws.len()
        invariant
            k <= ws@.len(),
            out@ == old(out)@ + words_bytes(ws@.take(k as int)),
        decreases ws@.len() - k,
    {
        proof {
            assert(ws@.take(k + 1).drop_last() =~= ws@.take(k as int));
        }
        write_word(out, ws[k]);
        assert(out@ =~= old(out)@ + words_bytes(ws@.take(k + 1)));
        k = k + 1;
    }
    assert(ws@.take(ws@.len() as int) =~= ws@);
}

/// Appends one genome record: its network, then its five traits.
fn write_genome(out: &mut Vec<u8>, g: &SavedGenome)
    ensures
        final(out)@ == old(out)@ + words_bytes(g@),
{
    write_ctrnn(out, &g.ctrnn);
    let ghost w0 = g.ctrnn@;
    let ghost w1 = w0.push(g.metabolism);
    let ghost w2 = w1.push(g.curiosity);
    let ghost w3 = w2.push(g.sociability);
    let ghost w4 = w3.push(g.selectivity);
    let ghost w5 = w4.push(g.altruism);
    assert(w1.drop_last() =~= w0);
    assert(w2.drop_last() =~= w1);
    assert(w3.drop_last() =~= w2);
    assert(w4.drop_last() =~= w3);
    assert(w5.drop_last() =~= w4);
    write_word(out, g.metabolism);
    write_word(out, g.curiosity);
    write_word(out, g.sociability);
    write_word(out, g.selectivity);
    write_word(out, g.altruism);
    assert(words_bytes(w1) == words_bytes(w0) + le_bytes(g.metabolism));
    assert(words_bytes(w2) == words_bytes(w1) + le_bytes(g.curiosity));
    assert(words_bytes(w3) == words_bytes(w2) + le_bytes(g.sociability));
    assert(words_bytes(w4) == words_bytes(w3) + le_bytes(g.selectivity));
    assert(words_bytes(w5) == words_bytes(w4) + le_bytes(g.altruism));
    assert(w5 =~= g@);
    assert(out@ =~= old(out)@ + words_bytes(w5));
}

/// The bytes of the population file for `genomes`, or `None` when there is
/// nothing to save. The count is stored modulo 2^32, as a 32-bit word.
pub fn encode_population(genomes: &[SavedGenome]) -> (r: Option<Vec<u8>>)
    ensures
        genomes@.len() == 0 ==> r is None,
        genomes@.len() > 0 ==> (r matches Some(bytes) && bytes@ == encoded(genomes_view(genomes@))),
        genomes@.len() > 0 && (forall|m: int| 0 <= m < genomes@.len() ==> (#[trigger] genomes@[m]).wf())
            ==> (r matches Some(bytes) && forall|k: int|
            0 <= k < genomes@.len() ==> {
                let g = #[trigger] genomes@[k];
                let base = 12 + 1624 * k;
                &&& le_word(bytes@, base + 1604) == g.metabolism
                &&& le_word(bytes@, base + 1608) == g.curiosity
                &&& le_word(bytes@, base + 1612) == g.sociability
                &&& le_word(bytes@, base + 1616) == g.selectivity
                &&& le_word(bytes@, base + 1620) == g.altruism
                &&& forall|j: int| 0 <= j < 401 ==> le_word(bytes@, base + 4 * j) == #[trigger] g.ctrnn@[j]
            }),
{
    if genomes.len() == 0 {
        return None;
    }
    let ghost gs = genomes_view(genomes@);
    let mut out: Vec<u8> = Vec::new();
    write_word(&mut out, MAGIC);
    write_word(&mut out, VERSION);
    let len = genomes.len();
    let count = len as u32;
    let wide = len as u64;
    assert(count == (wide % 0x1_0000_0000u64) as u32) by (bit_vector)
        requires
            count == len as u32,
            wide == len as u64,
    ;
    write_word(&mut out, count);
    let ghost header = out@;
    let mut k: usize = 0;
    while k < genomes.len()
        invariant
            gs == genomes_view(genomes@),
            k <= genomes@.len(),
            header == le_bytes(MAGIC) + le_bytes(VERSION) + le_bytes(count_word(genomes@.len())),
            out@ == header + genomes_bytes(gs.take(k as int)),
        decreases genomes@.len() - k,
    {
        proof {
            assert(gs.take(k + 1).drop_last() =~= gs.take(k as int));
        }
        write_genome(&mut out, &genomes[k]);
        assert(out@ =~= header + genomes_bytes(gs.take(k + 1)));
        k = k + 1;
    }
    assert(gs.take(gs.len() as int) =~= gs);
    proof {
        if forall|m: int| 0 <= m < genomes@.len() ==> (#[trigger] genomes@[m]).wf() {
            lemma_encoded_fields(genomes@);
        }
    }
    Some(out)
}

proof fn lemma_le_bytes_roundtrip(x: u32)
    ensures
        le_word_int(le_bytes(x), 0) == x as int,
        le_word(le_bytes(x), 0) == x,
{
    let b0 = x % 256;
    let b1 = (x / 256) % 256;
    let b2 = (x / 65536) % 256;
    let b3 = x / 16777216;
    assert(b0 + 256 * b1 + 65536 * b2 + 16777216 * b3 == x) by (bit_vector)
        requires
            b0 == x % 256,
            b1 == (x / 256) % 256,
            b2 == (x / 65536) % 256,
            b3 == x / 16777216,
    ;
}

proof fn lemma_words_bytes_index(ws: Seq<u32>, j: int, i: int)
    requires
        0 <= j < ws.len(),
        0 <= i < 4,
    ensures
        words_bytes(ws).len() == 4 * ws.len(),
        words_bytes(ws)[4 * j + i] == le_bytes(ws[j])[i],
    decreases ws.len(),
{
    lemma_words_bytes_len(ws);
    if j < ws.len() - 1 {
        lemma_words_bytes_index(ws.drop_last(), j, i);
    }
}

proof fn lemma_words_bytes_len(ws: Seq<u32>)
    ensures
        words_bytes(ws).len() == 4 * ws.len(),
    decreases ws.len(),
{
    if ws.len() > 0 {
        lemma_words_bytes_len(ws.drop_last());
    }
}

proof fn lemma_genomes_bytes_len(gs: Seq<Seq<u32>>)
    requires
        forall|k: int| 0 <= k < gs.len() ==> (#[trigger] gs[k]).len() == GENOME_WORDS,
    ensures
        genomes_bytes(gs).len() == GENOME_BYTES * gs.len(),
    decreases gs.len(),
{
    if gs.len() > 0 {
        lemma_genomes_bytes_len(gs.drop_last());
        lemma_words_bytes_len(gs.last());
    }
}

proof fn lemma_genomes_bytes_index(gs: Seq<Seq<u32>>, k: int, j: int, i: int)
    requires
        forall|m: int| 0 <= m < gs.len() ==> (#[trigger] gs[m]).len() == GENOME_WORDS,
        0 <= k < gs.len(),
        0 <= j < GENOME_WORDS,
        0 <= i < 4,
    ensures
        genomes_bytes(gs)[GENOME_BYTES * k + 4 * j + i] == le_bytes(gs[k][j])[i],
    decreases gs.len(),
{
    lemma_genomes_bytes_len(gs.drop_last());
    if k < gs.len() - 1 {
        lemma_genomes_bytes_index(gs.drop_last(), k, j, i);
    } else {
        lemma_words_bytes_index(gs.last(), j, i);
    }
}

/// Reading back what was saved gives the saved genomes: for any population
/// of whole genomes, the bytes that `encode_population` produces parse to
/// those genomes, all of them when their number fits the 32-bit count (the
/// first `n mod 2^32` of them otherwise, since the count wraps).
pub proof fn lemma_save_load_roundtrip(gs: Seq<Seq<u32>>)
    requires
        forall|k: int| 0 <= k < gs.len() ==> (#[trigger] gs[k]).len() == GENOME_WORDS,
    ensures
        parsed(encoded(gs)) == Some(gs.take(count_word(gs.len()) as int)),
        gs.len() <= u32::MAX ==> parsed(encoded(gs)) == Some(gs),
{
    let b = encoded(gs);
    let g = genomes_bytes(gs);
    let n = count_word(gs.len());
    lemma_genomes_bytes_len(gs);
    assert(n <= gs.len());
    lemma_le_bytes_roundtrip(MAGIC);
    lemma_le_bytes_roundtrip(VERSION);
    lemma_le_bytes_roundtrip(n);
    assert(b.len() == HEADER_BYTES + GENOME_BYTES * gs.len());
    assert(le_word_int(b, 0) == le_word_int(le_bytes(MAGIC), 0));
    assert(le_word_int(b, 4) == le_word_int(le_bytes(VERSION), 0));
    assert(le_word_int(b, 8) == le_word_int(le_bytes(n), 0));
    assert(le_word(b, 8) == n);
    let kept = gs.take(n as int);
    let parts = Seq::new(n as nat, |k: int| genome_at(b, HEADER_BYTES + k * GENOME_BYTES));
    assert forall|k: int| 0 <= k < n implies #[trigger] parts[k] == kept[k] by {
        assert forall|j: int| 0 <= j < GENOME_WORDS implies #[trigger] genome_at(
            b,
            HEADER_BYTES + k * GENOME_BYTES,
        )[j] == gs[k][j] by {
            let off = HEADER_BYTES + k * GENOME_BYTES + 4 * j;
            assert forall|i: int| 0 <= i < 4 implies b[off + i] == #[trigger] le_bytes(gs[k][j])[i] by {
                lemma_genomes_bytes_index(gs, k, j, i);
                assert(b[off + i] == g[GENOME_BYTES * k + 4 * j + i]);
            }
            lemma_le_bytes_roundtrip(gs[k][j]);
            assert(le_word_int(b, off) == le_word_int(le_bytes(gs[k][j]), 0));
        }
        assert(genome_at(b, HEADER_BYTES + k * GENOME_BYTES) =~= gs[k]);
    }
    assert(parts =~= kept);
    if gs.len() <= u32::MAX {
        assert(kept =~= gs);
    }
}

proof fn lemma_encoded_word(gs: Seq<Seq<u32>>, k: int, j: int)
    requires
        forall|m: int| 0 <= m < gs.len() ==> (#[trigger] gs[m]).len() == GENOME_WORDS,
        0 <= k < gs.len(),
        0 <= j < GENOME_WORDS,
    ensures
        le_word(encoded(gs), 12 + 1624 * k + 4 * j) == gs[k][j],
{
    let b = encoded(gs);
    let g = genomes_bytes(gs);
    lemma_genomes_bytes_len(gs);
    let off = 12 + 1624 * k + 4 * j;
    assert forall|i: int| 0 <= i < 4 implies b[off + i] == #[trigger] le_bytes(gs[k][j])[i] by {
        lemma_genomes_bytes_index(gs, k, j, i);
        assert(b[off + i] == g[GENOME_BYTES * k + 4 * j + i]);
    }
    lemma_le_bytes_roundtrip(gs[k][j]);
    assert(le_word_int(b, off) == le_word_int(le_bytes(gs[k][j]), 0));
}

/// Where each field of a saved genome lands in the file: record `k` starts
/// at byte 12 + 1624 k and holds the 401 network words, then metabolism,
/// curiosity, sociability, selectivity and altruism, one word each.
pub proof fn lemma_encoded_fields(gs: Seq<SavedGenome>)
    requires
        forall|m: int| 0 <= m < gs.len() ==> (#[trigger] gs[m]).wf(),
    ensures
        forall|k: int|
            0 <= k < gs.len() ==> {
                let g = #[trigger] gs[k];
                let b = encoded(genomes_view(gs));
                let base = 12 + 1624 * k;
                &&& le_word(b, base + 1604) == g.metabolism
                &&& le_word(b, base + 1608) == g.curiosity
                &&& le_word(b, base + 1612) == g.sociability
                &&& le_word(b, base + 1616) == g.selectivity
                &&& le_word(b, base + 1620) == g.altruism
                &&& forall|j: int| 0 <= j < 401 ==> le_word(b, base + 4 * j) == #[trigger] g.ctrnn@[j]
            },
{
    let gv = genomes_view(gs);
    assert forall|m: int| 0 <= m < gv.len() implies (#[trigger] gv[m]).len() == GENOME_WORDS by {
        assert(gv[m] == gs[m]@);
    }
    assert forall|k: int| 0 <= k < gs.len() implies {
        let g = #[trigger] gs[k];
        let b = encoded(genomes_view(gs));
        let base = 12 + 1624 * k;
        &&& le_word(b, base + 1604) == g.metabolism
        &&& le_word(b, base + 1608) == g.curiosity
        &&& le_word(b, base + 1612) == g.sociability
        &&& le_word(b, base + 1616) == g.selectivity
        &&& le_word(b, base + 1620) == g.altruism
        &&& forall|j: int| 0 <= j < 401 ==> le_word(b, base + 4 * j) == #[trigger] g.ctrnn@[j]
    } by {
        let g = gs[k];
        assert(gv[k] == g@);
        lemma_encoded_word(gv, k, 401);
        lemma_encoded_word(gv, k, 402);
        lemma_encoded_word(gv, k, 403);
        lemma_encoded_word(gv, k, 404);
        lemma_encoded_word(gv, k, 405);
        assert forall|j: int| 0 <= j < 401 implies le_word(encoded(gv), 12 + 1624 * k + 4 * j) == #[trigger] g.ctrnn@[j] by {
            lemma_encoded_word(gv, k, j);
        }
    }
}

proof fn lemma_le_word_bytes(b: Seq<u8>, off: int)
    requires
        0 <= off,
        off + 4 <= b.len(),
    ensures
        le_bytes(le_word(b, off)) =~= b.subrange(off, off + 4),
{
    let b0 = b[off];
    let b1 = b[off + 1];
    let b2 = b[off + 2];
    let b3 = b[off + 3];
    let w = le_word(b, off);
    assert(le_word_int(b, off) < 0x1_0000_0000);
    assert(w as int == b0 as int + 256 * (b1 as int) + 65536 * (b2 as int) + 16777216 * (b3 as int));
    assert(w % 256 == b0 as u32 && (w / 256) % 256 == b1 as u32 && (w / 65536) % 256 == b2 as u32 && w
        / 16777216 == b3 as u32) by (bit_vector)
        requires
            w == b0 as u32 + 256 * (b1 as u32) + 65536 * (b2 as u32) + 16777216 * (b3 as u32),
    ;
}

/// Saving what was read gives back the bytes that were read: when a file
/// holds at least one genome, encoding its genomes reproduces the file up to
/// the end of its last record.
pub proof fn lemma_load_save_roundtrip(b: Seq<u8>)
    requires
        parsed(b) is Some,
        parsed(b).unwrap().len() > 0,
    ensures
        encoded(parsed(b).unwrap()) =~= b.subrange(0, HEADER_BYTES + GENOME_BYTES * parsed(b).unwrap().len()),
{
    let gs = parsed(b).unwrap();
    let n = gs.len();
    let e = encoded(gs);
    let g = genomes_bytes(gs);
    assert(n == le_word(b, 8) as int);
    assert forall|k: int| 0 <= k < gs.len() implies (#[trigger] gs[k]).len() == GENOME_WORDS by {}
    lemma_genomes_bytes_len(gs);
    lemma_le_word_bytes(b, 0);
    lemma_le_word_bytes(b, 4);
    lemma_le_word_bytes(b, 8);
    assert(count_word(gs.len()) == le_word(b, 8));
    assert(e.len() == HEADER_BYTES + GENOME_BYTES * n);
    assert forall|p: int| 0 <= p < e.len() implies #[trigger] e[p] == b[p] by {
        if p < 4 {
            assert(e[p] == le_bytes(MAGIC)[p]);
            assert(b.subrange(0, 4)[p] == b[p]);
        } else if p < 8 {
            assert(e[p] == le_bytes(VERSION)[p - 4]);
            assert(b.subrange(4, 8)[p - 4] == b[p]);
        } else if p < 12 {
            assert(e[p] == le_bytes(count_word(gs.len()))[p - 8]);
            assert(b.subrange(8, 12)[p - 8] == b[p]);
        } else {
            let q = p - HEADER_BYTES;
            let k = q / GENOME_BYTES as int;
            let r = q % GENOME_BYTES as int;
            let j = r / 4;
            let i = r % 4;
            assert(q == GENOME_BYTES * k + 4 * j + i);
            assert(0 <= k < n);
            assert(e[p] == g[q]);
            lemma_genomes_bytes_index(gs, k, j, i);
            let off = HEADER_BYTES + k * GENOME_BYTES + 4 * j;
            assert(gs[k][j] == le_word(b, off));
            lemma_le_word_bytes(b, off);
            assert(b.subrange(off, off + 4)[i] == b[p]);
        }
    }
}

/// How one founder of a warm-started run is made from the loaded genomes.
pub struct SeedSlot {
    /// Index of the loaded genome that it inherits from.
    pub source: usize,
    /// Its starting cell.
    pub position: usize,
    /// Whether it stands for its genome directly (one per loaded genome) or
    /// is an extra founder that fills the population up.
    pub direct: bool,
    /// Percentage of network genes taken from the loaded genome; the rest
    /// come from a fresh random network.
    pub heritage_pct: u32,
}

/// Number of founders made from `n_loaded` genomes.
pub open spec fn seed_target(n_loaded: int) -> int {
    if n_loaded > MIN_SEED_POP as int { n_loaded } else { MIN_SEED_POP as int }
}

/// Founder `i` of `n_loaded`: it inherits from genome `i mod n_loaded`, starts
/// on cells spread evenly over the grid, and takes 70% of its network from the
/// genome when it stands for it directly, 50% when it is an extra.
pub open spec fn seed_slot_spec(n_loaded: int, i: int, s: SeedSlot) -> bool {
    let target = seed_target(n_loaded);
    &&& s.source as int == i % n_loaded
    &&& s.position as int == (i * (GRID_SIZE as int / target)) % GRID_SIZE as int
    &&& s.direct == (i < n_loaded)
    &&& s.heritage_pct == (if i < n_loaded { DIRECT_HERITAGE_PCT } else { EXTRA_HERITAGE_PCT })
}

/// The founders of a run warm-started from `n_loaded` saved genomes: always
/// at least `MIN_SEED_POP` of them, one per genome first, then extras that
/// cycle through the genomes again. A file without genomes seeds nothing:
/// `None`, as for a missing or corrupt file.
pub fn seed_slots(n_loaded: usize) -> (r: Option<Vec<SeedSlot>>)
    ensures
        n_loaded == 0 ==> r is None,
        n_loaded > 0 ==> (r matches Some(v) && v@.len() == seed_target(n_loaded as int) && forall|i: int|
            0 <= i < v@.len() ==> seed_slot_spec(n_loaded as int, i, #[trigger] v@[i])),
{
    if n_loaded == 0 {
        return None;
    }
    let target = if MIN_SEED_POP > n_loaded { MIN_SEED_POP } else { n_loaded };
    let step = GRID_SIZE / target;
    let mut out: Vec<SeedSlot> = Vec::new();
    let mut i: usize = 0;
    while i < target
        invariant
            target as int == seed_target(n_loaded as int),
            n_loaded >= 1,
            step == GRID_SIZE / target,
            i <= target,
            out@.len() == i,
            forall|j: int| 0 <= j < i ==> seed_slot_spec(n_loaded as int, j, #[trigger] out@[j]),
        decreases target - i,
    {
        assert(i * step <= GRID_SIZE) by (nonlinear_arith)
            requires
                i < target,
                step == GRID_SIZE / target,
                target >= 1,
        ;
        let direct = i < n_loaded;
        let slot = SeedSlot {
            source: i % n_loaded,
            position: (i * step) % GRID_SIZE,
            direct,
            heritage_pct: if direct { DIRECT_HERITAGE_PCT } else { EXTRA_HERITAGE_PCT },
        };
        out.push(slot);
        i = i + 1;
    }
    Some(out)
}

} // verus!
