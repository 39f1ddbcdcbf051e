//! What a vision language model reads from a checkpoint: a vision tower, a
//! connector and a text decoder.

use vstd::prelude::*;
use vstd::string::*;

use crate::archspec::is_gemma;
use crate::catalog::{meets, meets_all, settles, Catalog, Demands, Need, TensorEntry};
use crate::error::{is_missing, two, ModelError, Result};
use crate::llama::{llama_needs, llama_planned, need, LlamaPlan};
use crate::metadata::{ModelMetadata, VisionConfig};
use crate::reads::{read_needs, Reads};
use crate::text::{decimal, decimal_text, join2};
use crate::whisper::{add_norm, norm_pair};

verus! {

/// What a vision tower reads.
#[derive(Debug)]
pub struct SiglipPlan {
    /// Patch projection, its bias, and the positions.
    pub embeddings: Reads,
    /// The layers: norm, attention, norm, feed-forward block.
    pub layers: Vec<Reads>,
    /// The last norm.
    pub post_norm: Reads,
}

/// What a model reads.
#[derive(Debug)]
pub struct SmolVlmPlan {
    /// The vision tower.
    pub vision: SiglipPlan,
    /// The projection from the tower to the decoder.
    pub proj: String,
    /// The text decoder.
    pub text: LlamaPlan,
}

/// The tensors before the layers of a tower.
pub open spec fn siglip_embeddings() -> Seq<(Seq<char>, int)> {
    let p = "model.vision_model"@;
    seq![
        (p + ".embeddings.patch_embedding.weight"@, 4int),
        (p + ".embeddings.patch_embedding.bias"@, 1int),
        (p + ".embeddings.position_embedding.weight"@, 2int),
    ]
}

/// The tensors of a projection with a bias.
pub open spec fn biased(name: Seq<char>) -> Seq<(Seq<char>, int)> {
    seq![(name + ".weight"@, 2int), (name + ".bias"@, 1int)]
}

/// The tensors of a layer of a tower.
pub open spec fn siglip_set(p: Seq<char>) -> Seq<(Seq<char>, int)> {
    norm_pair(p + ".layer_norm1"@) + biased(p + ".self_attn.q_proj"@) + biased(
        p + ".self_attn.k_proj"@,
    ) + biased(p + ".self_attn.v_proj"@) + biased(p + ".self_attn.out_proj"@) + norm_pair(
        p + ".layer_norm2"@,
    ) + biased(p + ".mlp.fc1"@) + biased(p + ".mlp.fc2"@)
}

/// The prefix of the names of layer `i` of a tower.
pub open spec fn siglip_layer(i: int) -> Seq<char> {
    "model.vision_model.encoder.layers."@ + decimal(i)
}

/// The needs of the first `count` layers of a tower.
pub open spec fn siglip_layers_needs(count: int) -> Seq<Need>
    decreases count,
{
    if count <= 0 {
        Seq::empty()
    } else {
        siglip_layers_needs(count - 1) + read_needs(siglip_set(siglip_layer(count - 1)))
    }
}

/// The needs of a tower of `layers` layers.
pub open spec fn siglip_needs(layers: int) -> Seq<Need> {
    read_needs(siglip_embeddings()) + siglip_layers_needs(layers) + read_needs(
        norm_pair("model.vision_model.post_layernorm"@),
    )
}

/// What a tower reads.
pub open spec fn siglip_planned(plan: SiglipPlan, layers: int) -> bool {
    &&& plan.embeddings@ == siglip_embeddings()
    &&& plan.post_norm@ == norm_pair("model.vision_model.post_layernorm"@)
    &&& plan.layers@.len() == layers
    &&& forall|i: int|
        0 <= i < layers ==> (#[trigger] plan.layers@[i])@ == siglip_set(siglip_layer(i))
}

/// Columns of the projection from the tower to the decoder: the width of the
/// tower for each patch of a group.
pub open spec fn connector_cols(vision: VisionConfig) -> int {
    vision.hidden_size * vision.scale_factor * vision.scale_factor
}

/// The needs of the projection from the tower to the decoder.
pub open spec fn connector_needs(meta: ModelMetadata, vision: VisionConfig) -> Seq<Need> {
    let name = "model.connector.modality_projection.proj.weight"@;
    seq![
        need(name, 2),
        Need::Shape {
            label: name,
            name,
            expected: seq![meta.hidden_size, connector_cols(vision) as usize],
        },
    ]
}

/// All needs of a model.
pub open spec fn smolvlm_needs(
    meta: ModelMetadata,
    vision: VisionConfig,
    entries: Seq<TensorEntry>,
) -> Seq<Need> {
    siglip_needs(vision.num_hidden_layers as int) + connector_needs(meta, vision) + llama_needs(
        meta,
        entries,
        "model.text_model"@,
    )
}

/// Adds the tensors of a projection with a bias.
fn add_biased(reads: &mut Reads, name: &str)
    ensures
        final(reads)@ == old(reads)@ + biased(name@),
{
    let ghost before = reads@;
    reads.add_read(name, ".weight", 2);
    reads.add_read(name, ".bias", 1);
    assert(reads@ =~= before + biased(name@));
}

/// Lists the tensors of a layer of a tower.
fn siglip_reads(p: &str) -> (reads: Reads)
    ensures
        reads@ == siglip_set(p@),
{
    let mut reads: Reads = Reads::new();
    add_norm(&mut reads, join2(p, ".layer_norm1").as_str());
    add_biased(&mut reads, join2(p, ".self_attn.q_proj").as_str());
    add_biased(&mut reads, join2(p, ".self_attn.k_proj").as_str());
    add_biased(&mut reads, join2(p, ".self_attn.v_proj").as_str());
    add_biased(&mut reads, join2(p, ".self_attn.out_proj").as_str());
    add_norm(&mut reads, join2(p, ".layer_norm2").as_str());
    add_biased(&mut reads, join2(p, ".mlp.fc1").as_str());
    add_biased(&mut reads, join2(p, ".mlp.fc2").as_str());
    assert(reads@ =~= siglip_set(p@));
    reads
}

impl SiglipPlan {
    /// Plans what a tower of `layers` layers reads, and states its needs.
    fn plan(demands: &mut Demands, layers: usize) -> (plan: SiglipPlan)
        ensures
            siglip_planned(plan, layers as int),
            final(demands)@ == old(demands)@ + siglip_needs(layers as int),
    {
        let ghost s0 = demands@;
        let mut embeddings: Reads = Reads::new();
        let p: &str = "model.vision_model";
        embeddings.add_read(p, ".embeddings.patch_embedding.weight", 4);
        embeddings.add_read(p, ".embeddings.patch_embedding.bias", 1);
        embeddings.add_read(p, ".embeddings.position_embedding.weight", 2);
        assert(embeddings@ =~= siglip_embeddings());
        embeddings.demand(demands);
        let ghost s1 = demands@;
        assert(demands@ =~= s1 + siglip_layers_needs(0));
        let mut list: Vec<Reads> = Vec::new();
        let mut i: usize = 0;
        while i < layers
            invariant
                i <= layers,
                demands@ == s1 + siglip_layers_needs(i as int),
                list@.len() == i,
                forall|j: int|
                    0 <= j < i ==> (#[trigger] list@[j])@ == siglip_set(siglip_layer(j)),
            decreases layers - i,
        {
            let number: String = decimal_text(i);
            let lp: String = join2("model.vision_model.encoder.layers.", number.as_str());
            let reads: Reads = siglip_reads(lp.as_str());
            reads.demand(demands);
            list.push(reads);
            i = i + 1;
            assert(demands@ =~= s1 + siglip_layers_needs(i as int));
        }
        let mut post_norm: Reads = Reads::new();
        add_norm(&mut post_norm, "model.vision_model.post_layernorm");
        assert(post_norm@ =~= norm_pair("model.vision_model.post_layernorm"@));
        post_norm.demand(demands);
        assert(demands@ =~= s0 + siglip_needs(layers as int));
        SiglipPlan { embeddings, layers: list, post_norm }
    }
}

/// Needs that are met one after the other are met together, and an error of the
/// second is the first error of both.
proof fn lemma_settles_both<T, U>(
    entries: Seq<TensorEntry>,
    first: Seq<Need>,
    second: Seq<Need>,
    result: std::result::Result<T, ModelError>,
    whole: std::result::Result<U, ModelError>,
)
    requires
        meets_all(entries, first),
        settles(entries, second, result),
        result is Ok <==> whole is Ok,
        result matches Err(e) ==> whole == std::result::Result::<U, ModelError>::Err(e),
    ensures
        settles(entries, first + second, whole),
{
    let all = first + second;
    assert forall|i: int| 0 <= i < first.len() implies meets(entries, #[trigger] all[i]) by {
        assert(all[i] == first[i]);
    }
    match result {
        Ok(_) => {
            assert forall|i: int| 0 <= i < all.len() implies meets(entries, #[trigger] all[i]) by {
                if i >= first.len() {
                    assert(all[i] == second[i - first.len()]);
                }
            }
        },
        Err(error) => {
            let i = choose|i: int|
                0 <= i < second.len() && meets_all(entries, second.take(i)) && !meets(
                    entries,
                    #[trigger] second[i],
                ) && crate::catalog::unmet(entries, second[i], error);
            let at = first.len() + i;
            assert(all[at] == second[i]);
            assert forall|j: int| 0 <= j < at implies meets(
                entries,
                #[trigger] all.take(at)[j],
            ) by {
                if j >= first.len() {
                    assert(all.take(at)[j] == second.take(i)[j - first.len()]);
                } else {
                    assert(all.take(at)[j] == first[j]);
                }
            }
        },
    }
}

/// Needs that are not met fail whatever comes behind them.
proof fn lemma_settles_first<T, U>(
    entries: Seq<TensorEntry>,
    first: Seq<Need>,
    second: Seq<Need>,
    error: ModelError,
    whole: std::result::Result<U, ModelError>,
)
    requires
        settles::<T>(entries, first, Err(error)),
        whole == std::result::Result::<U, ModelError>::Err(error),
    ensures
        settles(entries, first + second, whole),
{
    let all = first + second;
    let i = choose|i: int|
        0 <= i < first.len() && meets_all(entries, first.take(i)) && !meets(
            entries,
            #[trigger] first[i],
        ) && crate::catalog::unmet(entries, first[i], error);
    assert(all[i] == first[i]);
    assert(all.take(i) =~= first.take(i));
}

impl SmolVlmPlan {
    /// Plans what a model reads. A configuration without a vision tower lacks
    /// something; otherwise the first need that the checkpoint does not meet is
    /// the error.
    pub fn load(meta: &ModelMetadata, catalog: &Catalog) -> (r: Result<SmolVlmPlan>)
        requires
            meta.countable(),
            is_gemma(meta.architecture@) && meta.attention_pattern.sliding_window is Some
                ==> meta.attention_pattern.pattern > 0,
            meta.vision matches Some(vision) ==> connector_cols(vision) <= usize::MAX
                && vision.hidden_size * vision.scale_factor <= usize::MAX,
        ensures
            match meta.vision {
                None => r matches Err(e) && is_missing(e, "vision_config"@),
                Some(vision) => {
                    &&& settles(
                        catalog.listed(),
                        smolvlm_needs(*meta, vision, catalog.listed()),
                        r,
                    )
                    &&& r matches Ok(plan) ==> siglip_planned(
                        plan.vision,
                        vision.num_hidden_layers as int,
                    ) && plan.proj@ == "model.connector.modality_projection.proj.weight"@
                        && llama_planned(
                        plan.text,
                        *meta,
                        catalog.listed(),
                        "model.text_model"@,
                    )
                },
            },
    {
        let vision = match meta.vision {
            None => {
                return Err(ModelError::MissingTensor("vision_config".to_owned()));
            },
            Some(vision) => vision,
        };
        let ghost entries = catalog.listed();
        let mut demands: Demands = Demands::new();
        let tower = SiglipPlan::plan(&mut demands, vision.num_hidden_layers);
        let proj: String = "model.connector.modality_projection.proj.weight".to_owned();
        demands.present(proj.clone(), 2);
        demands.shape(
            proj.clone(),
            proj.clone(),
            two(
                meta.hidden_size,
                vision.hidden_size * vision.scale_factor * vision.scale_factor,
            ),
        );
        let ghost first = siglip_needs(vision.num_hidden_layers as int) + connector_needs(
            *meta,
            vision,
        );
        let ghost second = llama_needs(*meta, entries, "model.text_model"@);
        assert(demands@ =~= first);
        let checked = catalog.settle(&demands);
        match checked {
            Err(error) => {
                let r: Result<SmolVlmPlan> = Err(error);
                proof {
                    lemma_settles_first::<(), SmolVlmPlan>(entries, first, second, error, r);
                }
                r
            },
            Ok(()) => {
                let text = LlamaPlan::load_with_prefix(meta, catalog, "model.text_model");
                let ghost loaded = text;
                let r: Result<SmolVlmPlan> = match text {
                    Err(error) => Err(error),
                    Ok(text) => Ok(SmolVlmPlan { vision: tower, proj, text }),
                };
                proof {
                    lemma_settles_both(entries, first, second, loaded, r);
                }
                r
            },
        }
    }
}

} // verus!
