use vstd::prelude::*;

verus! {

/// The four bytes of a 32-bit word, lowest byte first, as the GPU reads them.
pub open spec fn word_bytes(word: u32) -> Seq<u8> {
    seq![
        (word % 256) as u8,
        (word / 256 % 256) as u8,
        (word / 65536 % 256) as u8,
        (word / 16777216) as u8,
    ]
}

/// The bytes of a sequence of 32-bit words, one word after the other.
pub open spec fn words_bytes(words: Seq<u32>) -> Seq<u8>
    decreases words.len(),
{
    if words.len() == 0 {
        Seq::empty()
    } else {
        words_bytes(words.drop_last()) + word_bytes(words.last())
    }
}

/// The 32-bit word that holds a signed integer in two's complement.
pub open spec fn signed_word(value: i32) -> u32 {
    if value >= 0 {
        value as u32
    } else {
        (value + 0x1_0000_0000) as u32
    }
}

/// Every word takes four bytes.
pub proof fn lemma_words_len(words: Seq<u32>)
    ensures
        words_bytes(words).len() == 4 * words.len(),
    decreases words.len(),
{
    if words.len() > 0 {
        lemma_words_len(words.drop_last());
    }
}

/// Appends the four bytes of `word` to `out`.
pub fn push_word(out: &mut Vec<u8>, word: u32)
    ensures
        final(out)@ == old(out)@ + word_bytes(word),
{
    let b0: u8 = (word % 256) as u8;
    let b1: u8 = (word / 256 % 256) as u8;
    let b2: u8 = (word / 65536 % 256) as u8;
    let b3: u8 = (word / 16777216) as u8;
    out.push(b0);
    out.push(b1);
    out.push(b2);
    out.push(b3);
    proof {
        assert(out@ =~= old(out)@ + word_bytes(word));
    }
}

/// The bytes of `words`, one word after the other.
pub fn encode_words(words: &[u32]) -> (out: Vec<u8>)
    ensures
        out@ == words_bytes(words@),
        out@.len() == 4 * words@.len(),
{
    let mut out: Vec<u8> = Vec::new();
    let mut i: usize = 0;
    while i < words.len()
        invariant
            i <= words.len(),
            out@ == words_bytes(words@.take(i as int)),
        decreases words.len() - i,
    {
        proof {
            assert(words@.take(i + 1).drop_last() =~= words@.take(i as int));
        }
        push_word(&mut out, words[i]);
        i += 1;
    }
    proof {
        assert(words@.take(i as int) =~= words@);
        lemma_words_len(words@);
    }
    out
}

/// The word that holds `value` in two's complement.
pub fn to_word(value: i32) -> (word: u32)
    ensures
        word == signed_word(value),
{
    if value >= 0 {
        value as u32
    } else {
        let wide: i64 = value as i64 + 0x1_0000_0000i64;
        wide as u32
    }
}

/// The per-frame arguments of the black-level correction. Every field is the bit
/// pattern of a 32-bit float.
#[derive(Clone, Copy, Debug, Default, PartialEq, Eq, Structural)]
pub struct BlackLevelPush {
    pub r_offset: u32,
    pub gr_offset: u32,
    pub gb_offset: u32,
    pub b_offset: u32,
    pub alpha: u32,
    pub beta: u32,
}

impl BlackLevelPush {
    /// The words of the block in the order of the shader's layout.
    pub open spec fn words(&self) -> Seq<u32> {
        seq![self.r_offset, self.gr_offset, self.gb_offset, self.b_offset, self.alpha, self.beta]
    }

    /// The block as the shader expects it: 24 bytes.
    pub fn bytes(&self) -> (out: Vec<u8>)
        ensures
            out@ == words_bytes(self.words()),
            out@.len() == 24,
    {
        let words: [u32; 6] = [
            self.r_offset,
            self.gr_offset,
            self.gb_offset,
            self.b_offset,
            self.alpha,
            self.beta,
        ];
        proof {
            assert(words@ =~= self.words());
        }
        encode_words(words.as_slice())
    }
}

/// The per-frame argument of the white balance: the bit pattern of the gain.
#[derive(Clone, Copy, Debug, Default, PartialEq, Eq, Structural)]
pub struct AutoWhiteBalancePush {
    pub gain: u32,
}

impl AutoWhiteBalancePush {
    /// The words of the block in the order of the shader's layout.
    pub open spec fn words(&self) -> Seq<u32> {
        seq![self.gain]
    }

    /// The block as the shader expects it: 4 bytes.
    pub fn bytes(&self) -> (out: Vec<u8>)
        ensures
            out@ == words_bytes(self.words()),
            out@.len() == 4,
    {
        let words: [u32; 1] = [self.gain];
        proof {
            assert(words@ =~= self.words());
        }
        encode_words(words.as_slice())
    }
}

/// The per-frame argument of the demosaic stage: whether it is to do its work.
#[derive(Clone, Copy, Debug, PartialEq, Eq, Structural)]
pub struct DebayerPush {
    pub enabled: i32,
}

impl DebayerPush {
    /// The words of the block in the order of the shader's layout.
    pub open spec fn words(&self) -> Seq<u32> {
        seq![signed_word(self.enabled)]
    }

    /// The block as the shader expects it: 4 bytes.
    pub fn bytes(&self) -> (out: Vec<u8>)
        ensures
            out@ == words_bytes(self.words()),
            out@.len() == 4,
    {
        let words: [u32; 1] = [to_word(self.enabled)];
        proof {
            assert(words@ =~= self.words());
        }
        encode_words(words.as_slice())
    }
}

/// The per-frame colour matrix: the bit patterns of its sixteen floats, column by
/// column.
#[derive(Clone, Copy, Debug, PartialEq, Eq)]
pub struct ColorCorrectionPush {
    pub color_correction_matrix: [u32; 16],
}

impl ColorCorrectionPush {
    /// The words of the block in the order of the shader's layout.
    pub open spec fn words(&self) -> Seq<u32> {
        self.color_correction_matrix@
    }

    /// The block as the shader expects it: 64 bytes.
    pub fn bytes(&self) -> (out: Vec<u8>)
        ensures
            out@ == words_bytes(self.words()),
            out@.len() == 64,
    {
        encode_words(self.color_correction_matrix.as_slice())
    }
}

/// The per-frame tone curve: the bit patterns of gain and gamma exponent.
#[derive(Clone, Copy, Debug, Default, PartialEq, Eq, Structural)]
pub struct GammaPush {
    pub gain: u32,
    pub gamma: u32,
}

impl GammaPush {
    /// The words of the block in the order of the shader's layout.
    pub open spec fn words(&self) -> Seq<u32> {
        seq![self.gain, self.gamma]
    }

    /// The block as the shader expects it: 8 bytes.
    pub fn bytes(&self) -> (out: Vec<u8>)
        ensures
            out@ == words_bytes(self.words()),
            out@.len() == 8,
    {
        let words: [u32; 2] = [self.gain, self.gamma];
        proof {
            assert(words@ =~= self.words());
        }
        encode_words(words.as_slice())
    }
}

/// The arguments of one frame: the block of every stage.
#[derive(Clone, Copy, Debug)]
pub struct ISPParams {
    pub debayer_push: DebayerPush,
    pub black_level_push: BlackLevelPush,
    pub auto_white_balance_push: AutoWhiteBalancePush,
    pub gamma_push: GammaPush,
    pub color_correction_push: ColorCorrectionPush,
}

} // verus!
