//! The Whisper encoder and decoder: what they read from a checkpoint, and which
//! inputs they take.

use vstd::prelude::*;
use vstd::string::*;

use crate::catalog::{lookup, meets, settles, Catalog, Demands, Need, TensorEntry};
use crate::error::{
    bad_shape, is_bad_shape, is_unsupported_architecture, one, two, ModelError, Result,
};
use crate::metadata::ModelMetadata;
use crate::reads::{read_needs, Reads};
use crate::text::{decimal, decimal_text, join2, same_text};

verus! {

/// What a model reads.
#[derive(Debug)]
pub struct WhisperPlan {
    /// Weights of the two convolutions, and the encoder positions.
    pub stem: Reads,
    /// Encoder layers: norm, attention, norm, feed-forward block.
    pub encoder: Vec<Reads>,
    /// Decoder layers: norm, attention, norm, attention to the encoder, norm,
    /// feed-forward block.
    pub decoder: Vec<Reads>,
    /// Biases of the two convolutions, encoder norm, token table, decoder
    /// positions, decoder norm.
    pub tail: Reads,
    /// Mel bins that the encoder takes.
    pub n_mels: usize,
    /// Most encoder frames.
    pub n_audio_ctx: usize,
    /// Most decoder tokens.
    pub max_ctx: usize,
}

/// The tensors of the stem.
pub open spec fn whisper_stem() -> Seq<(Seq<char>, int)> {
    seq![
        ("model.encoder.conv1.weight"@, 3int),
        ("model.encoder.conv2.weight"@, 3int),
        ("model.encoder.embed_positions.weight"@, 2int),
    ]
}

/// The tensors read after the layers.
pub open spec fn whisper_tail() -> Seq<(Seq<char>, int)> {
    seq![
        ("model.encoder.conv1.bias"@, 1int),
        ("model.encoder.conv2.bias"@, 1int),
        ("model.encoder.layer_norm.weight"@, 1int),
        ("model.encoder.layer_norm.bias"@, 1int),
        ("model.decoder.embed_tokens.weight"@, 2int),
        ("model.decoder.embed_positions.weight"@, 2int),
        ("model.decoder.layer_norm.weight"@, 1int),
        ("model.decoder.layer_norm.bias"@, 1int),
    ]
}

/// The tensors of a norm.
pub open spec fn norm_pair(name: Seq<char>) -> Seq<(Seq<char>, int)> {
    seq![(name + ".weight"@, 1int), (name + ".bias"@, 1int)]
}

/// The tensors of an attention block. The key projection has no bias.
pub open spec fn attention_set(name: Seq<char>) -> Seq<(Seq<char>, int)> {
    seq![
        (name + ".q_proj.weight"@, 2int),
        (name + ".q_proj.bias"@, 1int),
        (name + ".k_proj.weight"@, 2int),
        (name + ".v_proj.weight"@, 2int),
        (name + ".v_proj.bias"@, 1int),
        (name + ".out_proj.weight"@, 2int),
        (name + ".out_proj.bias"@, 1int),
    ]
}

/// The tensors of a feed-forward block.
pub open spec fn mlp_set(p: Seq<char>) -> Seq<(Seq<char>, int)> {
    seq![
        (p + ".fc1.weight"@, 2int),
        (p + ".fc1.bias"@, 1int),
        (p + ".fc2.weight"@, 2int),
        (p + ".fc2.bias"@, 1int),
    ]
}

/// The tensors of an encoder layer.
pub open spec fn encoder_set(p: Seq<char>) -> Seq<(Seq<char>, int)> {
    norm_pair(p + ".self_attn_layer_norm"@) + attention_set(p + ".self_attn"@) + norm_pair(
        p + ".final_layer_norm"@,
    ) + mlp_set(p)
}

/// The tensors of a decoder layer.
pub open spec fn decoder_set(p: Seq<char>) -> Seq<(Seq<char>, int)> {
    norm_pair(p + ".self_attn_layer_norm"@) + attention_set(p + ".self_attn"@) + norm_pair(
        p + ".encoder_attn_layer_norm"@,
    ) + attention_set(p + ".encoder_attn"@) + norm_pair(p + ".final_layer_norm"@) + mlp_set(p)
}

/// The prefix of the names of encoder layer `i`.
pub open spec fn encoder_layer(i: int) -> Seq<char> {
    "model.encoder.layers."@ + decimal(i)
}

/// The prefix of the names of decoder layer `i`.
pub open spec fn decoder_layer(i: int) -> Seq<char> {
    "model.decoder.layers."@ + decimal(i)
}

/// The needs of the first `count` encoder layers.
pub open spec fn encoder_needs(count: int) -> Seq<Need>
    decreases count,
{
    if count <= 0 {
        Seq::empty()
    } else {
        encoder_needs(count - 1) + read_needs(encoder_set(encoder_layer(count - 1)))
    }
}

/// The needs of the first `count` decoder layers.
pub open spec fn decoder_needs(count: int) -> Seq<Need>
    decreases count,
{
    if count <= 0 {
        Seq::empty()
    } else {
        decoder_needs(count - 1) + read_needs(decoder_set(decoder_layer(count - 1)))
    }
}

/// All needs of a model of `layers` encoder and decoder layers.
pub open spec fn whisper_needs(layers: int) -> Seq<Need> {
    read_needs(whisper_stem()) + encoder_needs(layers) + decoder_needs(layers) + read_needs(
        whisper_tail(),
    )
}

/// What a model reads.
pub open spec fn whisper_planned(
    plan: WhisperPlan,
    layers: int,
    entries: Seq<TensorEntry>,
) -> bool {
    &&& plan.stem@ == whisper_stem()
    &&& plan.tail@ == whisper_tail()
    &&& plan.encoder@.len() == layers
    &&& plan.decoder@.len() == layers
    &&& forall|i: int|
        0 <= i < layers ==> (#[trigger] plan.encoder@[i])@ == encoder_set(encoder_layer(i))
    &&& forall|i: int|
        0 <= i < layers ==> (#[trigger] plan.decoder@[i])@ == decoder_set(decoder_layer(i))
    &&& lookup(entries, "model.encoder.conv1.weight"@) matches Some(s) && s.len() == 3
        && plan.n_mels == s[1]
    &&& lookup(entries, "model.encoder.embed_positions.weight"@) matches Some(s) && s.len() == 2
        && plan.n_audio_ctx == s[0]
    &&& lookup(entries, "model.decoder.embed_positions.weight"@) matches Some(s) && s.len() == 2
        && plan.max_ctx == s[0]
}

/// Adds the tensors of a norm.
pub(crate) fn add_norm(reads: &mut Reads, name: &str)
    ensures
        final(reads)@ == old(reads)@ + norm_pair(name@),
{
    let ghost before = reads@;
    reads.add_read(name, ".weight", 1);
    reads.add_read(name, ".bias", 1);
    assert(reads@ =~= before + norm_pair(name@));
}

/// Adds the tensors of an attention block.
fn add_attention(reads: &mut Reads, name: &str)
    ensures
        final(reads)@ == old(reads)@ + attention_set(name@),
{
    let ghost before = reads@;
    reads.add_read(name, ".q_proj.weight", 2);
    reads.add_read(name, ".q_proj.bias", 1);
    reads.add_read(name, ".k_proj.weight", 2);
    reads.add_read(name, ".v_proj.weight", 2);
    reads.add_read(name, ".v_proj.bias", 1);
    reads.add_read(name, ".out_proj.weight", 2);
    reads.add_read(name, ".out_proj.bias", 1);
    assert(reads@ =~= before + attention_set(name@));
}

/// Adds the tensors of a feed-forward block.
fn add_mlp(reads: &mut Reads, p: &str)
    ensures
        final(reads)@ == old(reads)@ + mlp_set(p@),
{
    let ghost before = reads@;
    reads.add_read(p, ".fc1.weight", 2);
    reads.add_read(p, ".fc1.bias", 1);
    reads.add_read(p, ".fc2.weight", 2);
    reads.add_read(p, ".fc2.bias", 1);
    assert(reads@ =~= before + mlp_set(p@));
}

/// Lists the tensors of an encoder layer.
fn encoder_reads(p: &str) -> (reads: Reads)
    ensures
        reads@ == encoder_set(p@),
{
    let mut reads: Reads = Reads::new();
    add_norm(&mut reads, join2(p, ".self_attn_layer_norm").as_str());
    add_attention(&mut reads, join2(p, ".self_attn").as_str());
    add_norm(&mut reads, join2(p, ".final_layer_norm").as_str());
    add_mlp(&mut reads, p);
    assert(reads@ =~= encoder_set(p@));
    reads
}

/// Lists the tensors of a decoder layer.
fn decoder_reads(p: &str) -> (reads: Reads)
    ensures
        reads@ == decoder_set(p@),
{
    let mut reads: Reads = Reads::new();
    add_norm(&mut reads, join2(p, ".self_attn_layer_norm").as_str());
    add_attention(&mut reads, join2(p, ".self_attn").as_str());
    add_norm(&mut reads, join2(p, ".encoder_attn_layer_norm").as_str());
    add_attention(&mut reads, join2(p, ".encoder_attn").as_str());
    add_norm(&mut reads, join2(p, ".final_layer_norm").as_str());
    add_mlp(&mut reads, p);
    assert(reads@ =~= decoder_set(p@));
    reads
}

/// Lists the tensors of the stem.
fn stem_reads() -> (reads: Reads)
    ensures
        reads@ == whisper_stem(),
{
    let mut reads: Reads = Reads::new();
    let none: String = String::new();
    reads.add_read(none.as_str(), "model.encoder.conv1.weight", 3);
    reads.add_read(none.as_str(), "model.encoder.conv2.weight", 3);
    reads.add_read(none.as_str(), "model.encoder.embed_positions.weight", 2);
    proof {
        lemma_no_prefix(none@);
        assert(reads@ =~= whisper_stem());
    }
    reads
}

/// Lists the tensors read after the layers.
fn tail_reads() -> (reads: Reads)
    ensures
        reads@ == whisper_tail(),
{
    let mut reads: Reads = Reads::new();
    let none: String = String::new();
    reads.add_read(none.as_str(), "model.encoder.conv1.bias", 1);
    reads.add_read(none.as_str(), "model.encoder.conv2.bias", 1);
    reads.add_read(none.as_str(), "model.encoder.layer_norm.weight", 1);
    reads.add_read(none.as_str(), "model.encoder.layer_norm.bias", 1);
    reads.add_read(none.as_str(), "model.decoder.embed_tokens.weight", 2);
    reads.add_read(none.as_str(), "model.decoder.embed_positions.weight", 2);
    reads.add_read(none.as_str(), "model.decoder.layer_norm.weight", 1);
    reads.add_read(none.as_str(), "model.decoder.layer_norm.bias", 1);
    proof {
        lemma_no_prefix(none@);
        assert(reads@ =~= whisper_tail());
    }
    reads
}

/// Nothing in front of a text leaves it as it is.
proof fn lemma_no_prefix(none: Seq<char>)
    requires
        none.len() == 0,
    ensures
        forall|text: Seq<char>| #[trigger] (none + text) == text,
{
    assert forall|text: Seq<char>| #[trigger] (none + text) == text by {
        assert(none + text =~= text);
    }
}

impl WhisperPlan {
    /// Plans what a model reads. The first need that the checkpoint does not
    /// meet is the error.
    pub fn load(meta: &ModelMetadata, catalog: &Catalog) -> (r: Result<WhisperPlan>)
        ensures
            settles(catalog.listed(), whisper_needs(meta.num_hidden_layers as int), r),
            r matches Ok(plan) ==> whisper_planned(
                plan,
                meta.num_hidden_layers as int,
                catalog.listed(),
            ),
    {
        let n: usize = meta.num_hidden_layers;
        let ghost entries = catalog.listed();
        let mut demands: Demands = Demands::new();
        let stem: Reads = stem_reads();
        stem.demand(&mut demands);
        let ghost s0 = read_needs(whisper_stem());
        assert(demands@ =~= s0);
        assert(demands@ =~= s0 + encoder_needs(0));
        let mut encoder: Vec<Reads> = Vec::new();
        let mut i: usize = 0;
        while i < n
            invariant
                i <= n,
                demands@ == s0 + encoder_needs(i as int),
                encoder@.len() == i,
                forall|j: int|
                    0 <= j < i ==> (#[trigger] encoder@[j])@ == encoder_set(encoder_layer(j)),
            decreases n - i,
        {
            let number: String = decimal_text(i);
            let p: String = join2("model.encoder.layers.", number.as_str());
            let reads: Reads = encoder_reads(p.as_str());
            reads.demand(&mut demands);
            encoder.push(reads);
            i = i + 1;
            assert(demands@ =~= s0 + encoder_needs(i as int));
        }
        let ghost s1 = demands@;
        assert(demands@ =~= s1 + decoder_needs(0));
        let mut decoder: Vec<Reads> = Vec::new();
        let mut i: usize = 0;
        while i < n
            invariant
                i <= n,
                demands@ == s1 + decoder_needs(i as int),
                decoder@.len() == i,
                forall|j: int|
                    0 <= j < i ==> (#[trigger] decoder@[j])@ == decoder_set(decoder_layer(j)),
            decreases n - i,
        {
            let number: String = decimal_text(i);
            let p: String = join2("model.decoder.layers.", number.as_str());
            let reads: Reads = decoder_reads(p.as_str());
            reads.demand(&mut demands);
            decoder.push(reads);
            i = i + 1;
            assert(demands@ =~= s1 + decoder_needs(i as int));
        }
        let tail: Reads = tail_reads();
        tail.demand(&mut demands);
        let ghost needs = whisper_needs(n as int);
        assert(demands@ =~= needs);
        match catalog.settle(&demands) {
            Err(error) => Err(error),
            Ok(()) => {
                proof {
                    let stem_needs = read_needs(whisper_stem());
                    let tail_needs = read_needs(whisper_tail());
                    let at = needs.len() - tail_needs.len();
                    assert(needs[0] == stem_needs[0]);
                    assert(needs[2] == stem_needs[2]);
                    assert(needs[at + 5] == tail_needs[5]);
                    assert(meets(entries, needs[0]));
                    assert(meets(entries, needs[2]));
                    assert(meets(entries, needs[at + 5]));
                }
                let n_mels: usize = dimension(catalog, "model.encoder.conv1.weight", 1);
                let n_audio_ctx: usize = dimension(
                    catalog,
                    "model.encoder.embed_positions.weight",
                    0,
                );
                let max_ctx: usize = dimension(
                    catalog,
                    "model.decoder.embed_positions.weight",
                    0,
                );
                Ok(WhisperPlan { stem, encoder, decoder, tail, n_mels, n_audio_ctx, max_ctx })
            },
        }
    }

    /// Checks the mel bins of an input.
    pub fn check_mel(&self, mels: usize) -> (r: Result<()>)
        ensures
            r is Ok <==> mels == self.n_mels,
            r matches Err(e) ==> is_bad_shape(
                e,
                "mel spectrogram"@,
                seq![1usize, self.n_mels],
                seq![1usize, mels],
            ),
    {
        if mels != self.n_mels {
            Err(bad_shape("mel spectrogram", two(1, self.n_mels), two(1, mels)))
        } else {
            Ok(())
        }
    }

    /// Checks the frames that the convolutions leave.
    pub fn check_frames(&self, frames: usize) -> (r: Result<()>)
        ensures
            r is Ok <==> frames <= self.n_audio_ctx,
            r matches Err(e) ==> is_bad_shape(
                e,
                "encoder frames"@,
                seq![self.n_audio_ctx],
                seq![frames],
            ),
    {
        if frames > self.n_audio_ctx {
            Err(bad_shape("encoder frames", one(self.n_audio_ctx), one(frames)))
        } else {
            Ok(())
        }
    }

    /// Checks the number of tokens of a decoder step: at least one, and no more
    /// than the decoder has positions.
    pub fn check_tokens(&self, tokens: usize) -> (r: Result<()>)
        ensures
            r is Ok <==> 0 < tokens <= self.max_ctx,
            r matches Err(e) ==> if tokens == 0 {
                is_bad_shape(e, "decoder tokens"@, seq![1usize], seq![0usize])
            } else {
                is_bad_shape(e, "decoder context"@, seq![self.max_ctx], seq![tokens])
            },
    {
        if tokens == 0 {
            Err(bad_shape("decoder tokens", one(1), one(0)))
        } else if tokens > self.max_ctx {
            Err(bad_shape("decoder context", one(self.max_ctx), one(tokens)))
        } else {
            Ok(())
        }
    }
}

/// One dimension of a tensor that is there.
fn dimension(catalog: &Catalog, name: &str, axis: usize) -> (size: usize)
    requires
        lookup(catalog.listed(), name@) matches Some(shape) && axis < shape.len(),
    ensures
        lookup(catalog.listed(), name@) matches Some(shape) && size == shape[axis as int],
{
    match catalog.find(name) {
        Some(shape) => shape[axis],
        None => 0,
    }
}

/// The places of an `n` by `n` mask, row by row, that lie above the diagonal
/// and are hidden.
pub fn causal_mask(n: usize) -> (hidden: Vec<bool>)
    requires
        n * n <= usize::MAX,
    ensures
        hidden@.len() == n * n,
        forall|r: int, c: int|
            0 <= r < n && 0 <= c < n ==> #[trigger] hidden@[r * n + c] == (c > r),
{
    let hidden: Vec<bool> = crate::attend::attention_mask(0, n, n, None);
    proof {
        assert forall|r: int, c: int| 0 <= r < n && 0 <= c < n implies #[trigger] hidden@[r * n
            + c] == (c > r) by {
            assert(hidden@[r * n + c] == crate::attend::hidden(0 + r, c, None));
        }
    }
    hidden
}

/// The architecture of a speech model must be known.
pub fn load_speech_model(meta: &ModelMetadata, catalog: &Catalog) -> (r: Result<WhisperPlan>)
    ensures
        if meta.architecture@ == "whisper"@ {
            &&& settles(catalog.listed(), whisper_needs(meta.num_hidden_layers as int), r)
            &&& r matches Ok(plan) ==> whisper_planned(
                plan,
                meta.num_hidden_layers as int,
                catalog.listed(),
            )
        } else {
            r matches Err(e) && is_unsupported_architecture(e, meta.architecture@)
        },
{
    if same_text(meta.architecture.as_str(), "whisper") {
        WhisperPlan::load(meta, catalog)
    } else {
        Err(ModelError::UnsupportedArchitecture(meta.architecture.clone()))
    }
}

} // verus!
