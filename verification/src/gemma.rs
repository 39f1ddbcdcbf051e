//! What a Gemma 3 text model reads from a checkpoint.

use vstd::prelude::*;
use vstd::string::*;

use crate::catalog::{settles, Catalog, Demands, Need, TensorEntry};
use crate::error::{two, Result};
use crate::llama::{is_name_if, need, own_head};
use crate::metadata::ModelMetadata;
use crate::reads::{read_needs, under, Reads};
use crate::text::{decimal, decimal_text, join2};

verus! {

/// What a model reads.
#[derive(Debug)]
pub struct GemmaPlan {
    /// Embedding table.
    pub embed: String,
    /// Output head; the embedding table serves as head where there is none.
    pub lm_head: Option<String>,
    /// Norm before the output head.
    pub final_norm: String,
    /// The layers: the projections of query, key, value and output, the
    /// per-head norms, the projections of gate, up and down, and the norms
    /// before and behind attention and before and behind the feed-forward
    /// block.
    pub layers: Vec<Reads>,
}

/// The prefix of the names of layer `i`.
pub open spec fn gemma_layer(i: int) -> Seq<char> {
    "model.layers."@ + decimal(i)
}

/// The first two tensors of a layer.
pub open spec fn gemma_front() -> Seq<(Seq<char>, int)> {
    seq![(".self_attn.q_proj.weight"@, 2int), (".self_attn.k_proj.weight"@, 2int)]
}

/// The other tensors of a layer.
pub open spec fn gemma_back() -> Seq<(Seq<char>, int)> {
    seq![
        (".self_attn.v_proj.weight"@, 2int),
        (".self_attn.o_proj.weight"@, 2int),
        (".self_attn.q_norm.weight"@, 1int),
        (".self_attn.k_norm.weight"@, 1int),
        (".mlp.gate_proj.weight"@, 2int),
        (".mlp.up_proj.weight"@, 2int),
        (".mlp.down_proj.weight"@, 2int),
        (".input_layernorm.weight"@, 1int),
        (".post_attention_layernorm.weight"@, 1int),
        (".pre_feedforward_layernorm.weight"@, 1int),
        (".post_feedforward_layernorm.weight"@, 1int),
    ]
}

/// The shapes that the query and key projections must have.
pub open spec fn gemma_shapes(meta: ModelMetadata, p: Seq<char>) -> Seq<Need> {
    let q = p + ".self_attn.q_proj.weight"@;
    let k = p + ".self_attn.k_proj.weight"@;
    seq![
        Need::Shape {
            label: q,
            name: q,
            expected: seq![meta.q_rows() as usize, meta.hidden_size],
        },
        Need::Shape {
            label: k,
            name: k,
            expected: seq![meta.kv_rows() as usize, meta.hidden_size],
        },
    ]
}

/// The needs of a layer, in the order in which it reads.
pub open spec fn gemma_layer_needs(meta: ModelMetadata, p: Seq<char>) -> Seq<Need> {
    read_needs(under(p, gemma_front())) + gemma_shapes(meta, p) + read_needs(
        under(p, gemma_back()),
    )
}

/// The needs of the first `count` layers.
pub open spec fn gemma_layers_needs(meta: ModelMetadata, count: int) -> Seq<Need>
    decreases count,
{
    if count <= 0 {
        Seq::empty()
    } else {
        gemma_layers_needs(meta, count - 1) + gemma_layer_needs(meta, gemma_layer(count - 1))
    }
}

/// The needs outside the layers.
pub open spec fn gemma_head_needs(meta: ModelMetadata, entries: Seq<TensorEntry>) -> Seq<Need> {
    let shape = seq![meta.vocab_size, meta.hidden_size];
    seq![
        need("model.embed_tokens.weight"@, 2),
        Need::Shape {
            label: "model.embed_tokens.weight"@,
            name: "model.embed_tokens.weight"@,
            expected: shape,
        },
    ] + (if own_head(meta, entries) {
        seq![
            need("lm_head.weight"@, 2),
            Need::Shape { label: "lm_head.weight"@, name: "lm_head.weight"@, expected: shape },
        ]
    } else {
        Seq::empty()
    }) + seq![need("model.norm.weight"@, 1)]
}

/// All needs of a model.
pub open spec fn gemma_needs(meta: ModelMetadata, entries: Seq<TensorEntry>) -> Seq<Need> {
    gemma_head_needs(meta, entries) + gemma_layers_needs(meta, meta.num_hidden_layers as int)
}

/// What a model reads.
pub open spec fn gemma_planned(
    plan: GemmaPlan,
    meta: ModelMetadata,
    entries: Seq<TensorEntry>,
) -> bool {
    &&& plan.embed@ == "model.embed_tokens.weight"@
    &&& is_name_if(plan.lm_head, own_head(meta, entries), "lm_head.weight"@)
    &&& plan.final_norm@ == "model.norm.weight"@
    &&& plan.layers@.len() == meta.num_hidden_layers
    &&& forall|i: int|
        0 <= i < plan.layers@.len() ==> (#[trigger] plan.layers@[i])@ == under(
            gemma_layer(i),
            gemma_front() + gemma_back(),
        )
}

/// Lists the first two tensors of a layer.
fn front_reads(p: &str) -> (reads: Reads)
    ensures
        reads@ == under(p@, gemma_front()),
{
    let mut reads: Reads = Reads::new();
    reads.add_read(p, ".self_attn.q_proj.weight", 2);
    reads.add_read(p, ".self_attn.k_proj.weight", 2);
    assert(reads@ =~= under(p@, gemma_front()));
    reads
}

/// Lists the other tensors of a layer behind `reads`.
fn back_reads(reads: &mut Reads, p: &str)
    ensures
        final(reads)@ == old(reads)@ + under(p@, gemma_back()),
{
    let ghost before = reads@;
    reads.add_read(p, ".self_attn.v_proj.weight", 2);
    reads.add_read(p, ".self_attn.o_proj.weight", 2);
    reads.add_read(p, ".self_attn.q_norm.weight", 1);
    reads.add_read(p, ".self_attn.k_norm.weight", 1);
    reads.add_read(p, ".mlp.gate_proj.weight", 2);
    reads.add_read(p, ".mlp.up_proj.weight", 2);
    reads.add_read(p, ".mlp.down_proj.weight", 2);
    reads.add_read(p, ".input_layernorm.weight", 1);
    reads.add_read(p, ".post_attention_layernorm.weight", 1);
    reads.add_read(p, ".pre_feedforward_layernorm.weight", 1);
    reads.add_read(p, ".post_feedforward_layernorm.weight", 1);
    assert(reads@ =~= before + under(p@, gemma_back()));
}

/// States the needs of a layer.
fn demand_layer(demands: &mut Demands, meta: &ModelMetadata, p: &str)
    requires
        meta.q_rows() <= usize::MAX,
        meta.kv_rows() <= usize::MAX,
    ensures
        final(demands)@ == old(demands)@ + gemma_layer_needs(*meta, p@),
{
    let ghost before = demands@;
    front_reads(p).demand(demands);
    let q: String = join2(p, ".self_attn.q_proj.weight");
    let k: String = join2(p, ".self_attn.k_proj.weight");
    demands.shape(
        q.clone(),
        q,
        two(meta.num_attention_heads * meta.head_dim, meta.hidden_size),
    );
    demands.shape(
        k.clone(),
        k,
        two(meta.num_key_value_heads * meta.head_dim, meta.hidden_size),
    );
    let mut back: Reads = Reads::new();
    back_reads(&mut back, p);
    assert(back@ =~= under(p@, gemma_back()));
    back.demand(demands);
    assert(demands@ =~= before + gemma_layer_needs(*meta, p@));
}

impl GemmaPlan {
    /// Plans what a model reads. The first need that the checkpoint does not
    /// meet is the error.
    pub fn load(meta: &ModelMetadata, catalog: &Catalog) -> (r: Result<GemmaPlan>)
        requires
            meta.q_rows() <= usize::MAX,
            meta.kv_rows() <= usize::MAX,
        ensures
            settles(catalog.listed(), gemma_needs(*meta, catalog.listed()), r),
            r matches Ok(plan) ==> gemma_planned(plan, *meta, catalog.listed()),
    {
        let ghost entries = catalog.listed();
        let own: bool = !meta.tie_word_embeddings && catalog.has("lm_head.weight");
        let mut demands: Demands = Demands::new();
        demands.present("model.embed_tokens.weight".to_owned(), 2);
        demands.shape(
            "model.embed_tokens.weight".to_owned(),
            "model.embed_tokens.weight".to_owned(),
            two(meta.vocab_size, meta.hidden_size),
        );
        if own {
            demands.present("lm_head.weight".to_owned(), 2);
            demands.shape(
                "lm_head.weight".to_owned(),
                "lm_head.weight".to_owned(),
                two(meta.vocab_size, meta.hidden_size),
            );
        }
        demands.present("model.norm.weight".to_owned(), 1);
        let ghost head = gemma_head_needs(*meta, entries);
        assert(demands@ =~= head);
        assert(demands@ =~= head + gemma_layers_needs(*meta, 0));
        let mut layers: Vec<Reads> = Vec::new();
        let mut i: usize = 0;
        while i < meta.num_hidden_layers
            invariant
                i <= meta.num_hidden_layers,
                meta.q_rows() <= usize::MAX,
                meta.kv_rows() <= usize::MAX,
                demands@ == head + gemma_layers_needs(*meta, i as int),
                layers@.len() == i,
                forall|j: int|
                    0 <= j < i ==> (#[trigger] layers@[j])@ == under(
                        gemma_layer(j),
                        gemma_front() + gemma_back(),
                    ),
            decreases meta.num_hidden_layers - i,
        {
            let number: String = decimal_text(i);
            let p: String = join2("model.layers.", number.as_str());
            demand_layer(&mut demands, meta, p.as_str());
            let mut reads: Reads = front_reads(p.as_str());
            back_reads(&mut reads, p.as_str());
            assert(reads@ =~= under(p@, gemma_front() + gemma_back()));
            layers.push(reads);
            i = i + 1;
            assert(demands@ =~= head + gemma_layers_needs(*meta, i as int));
        }
        match catalog.settle(&demands) {
            Err(error) => Err(error),
            Ok(()) => {
                let lm_head: Option<String> = if own {
                    Some("lm_head.weight".to_owned())
                } else {
                    None
                };
                Ok(
                    GemmaPlan {
                        embed: "model.embed_tokens.weight".to_owned(),
                        lm_head,
                        final_norm: "model.norm.weight".to_owned(),
                        layers,
                    },
                )
            },
        }
    }
}

} // verus!
