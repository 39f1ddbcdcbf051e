//! Which linear layers run on packed weights, and how large products are
//! carried out.
//!
//! The kernels accelerate and are never needed for a correct result: whatever
//! they cannot take goes the dense way.

use vstd::prelude::*;
use vstd::string::*;

use crate::census::{counted, distinct, QuantCensus};
use crate::error::{ModelError, Result};
use crate::formats::QuantFormat;
use crate::numerals::{listed_numbers, parse_list, parse_number, parsed};
use crate::quant_weight::{block_bytes, block_values, gathers, QuantWeight};
use crate::text::{decimal, decimal_text, same_text};
use crate::weights::weight_fits;

verus! {

/// The backends that the kernels can run on.
#[derive(Debug, Clone, Copy, PartialEq, Eq, Structural)]
pub enum BackendKind {
    /// Single precision with operation fusion.
    FusedF32,
    /// Single precision.
    UnfusedF32,
    /// Half precision.
    UnfusedF16,
    /// Any other backend.
    Other,
}

/// A packed tensor as a checkpoint holds it.
#[derive(Debug)]
pub struct QuantTensor {
    /// Format of the blocks.
    pub format: QuantFormat,
    /// Raw block stream.
    pub data: Vec<u8>,
    /// Shape of the tensor.
    pub shape: Vec<usize>,
}

/// The kernel that large products use.
#[derive(Debug, Clone, Copy, PartialEq, Eq, Structural)]
pub enum Strategy {
    /// The one that measures best for the shape.
    Tuned,
    /// The untuned one, for diagnosis.
    Cube,
}

/// The width in which large products read their operands.
#[derive(Debug, Clone, Copy, PartialEq, Eq, Structural)]
pub enum Operand {
    /// Single precision.
    Wide,
    /// Half precision, with sums in single precision.
    Narrow,
}

/// The kernels are switched off: the variable is set to anything but `0`.
pub fn kernels_disabled(setting: Option<&str>) -> (disabled: bool)
    ensures
        disabled == (setting matches Some(v) && v@ != "0"@),
{
    match setting {
        Some(v) => !same_text(v, "0"),
        None => false,
    }
}

/// Packed embeddings are switched off: the variable is set to `0`.
pub fn packed_embed_disabled(setting: Option<&str>) -> (disabled: bool)
    ensures
        disabled == (setting matches Some(v) && v@ == "0"@),
{
    match setting {
        Some(v) => same_text(v, "0"),
        None => false,
    }
}

/// Rows from which a product is carried out as one large product, when nothing
/// else is set.
pub const DEFAULT_BATCHED_ROWS: usize = 8;

/// Rows from which a product is carried out as one large product: `0` stands
/// for never, another number for itself, anything else for the default.
pub fn batched_threshold(setting: Option<&str>) -> (rows: usize)
    ensures
        rows == (match setting {
            None => DEFAULT_BATCHED_ROWS,
            Some(v) => if v@ == "0"@ {
                usize::MAX
            } else {
                match parsed(v@) {
                    Some(n) => n,
                    None => DEFAULT_BATCHED_ROWS,
                }
            },
        }),
        setting is None ==> rows == 8,
        setting matches Some(v) ==> (v@ == seq!['0'] ==> rows == usize::MAX),
        setting matches Some(v) ==> (v@ != seq!['0'] && parsed(v@) is None ==> rows == 8),
        setting matches Some(v) ==> (v@ != seq!['0'] ==> (parsed(v@) matches Some(n) ==> rows
            == n)),
{
    proof {
        reveal_strlit("0");
        assert("0"@ =~= seq!['0']);
    }
    match setting {
        None => DEFAULT_BATCHED_ROWS,
        Some(v) => {
            if same_text(v, "0") {
                usize::MAX
            } else {
                match parse_number(v) {
                    Some(n) => n,
                    None => DEFAULT_BATCHED_ROWS,
                }
            }
        },
    }
}

/// The widths that the diagnostic kernel may take; none stands for all.
pub fn cube_k_filter(setting: Option<&str>) -> (widths: Vec<usize>)
    ensures
        widths@ == (match setting {
            Some(v) => listed_numbers(Seq::empty(), v@),
            None => Seq::empty(),
        }),
{
    match setting {
        Some(v) => parse_list(v),
        None => Vec::new(),
    }
}

/// The kernel that is set: the diagnostic one only by its name.
pub fn matmul_strategy(setting: Option<&str>) -> (strategy: Strategy)
    ensures
        strategy == (if setting matches Some(v) && v@ == "cube"@ {
            Strategy::Cube
        } else {
            Strategy::Tuned
        }),
{
    match setting {
        Some(v) => if same_text(v, "cube") {
            Strategy::Cube
        } else {
            Strategy::Tuned
        },
        None => Strategy::Tuned,
    }
}

/// The kernel for a product of width `k`: that which is set, unless the filter
/// keeps the diagnostic one from this width.
pub open spec fn strategy_for(k: usize, chosen: Strategy, widths: Seq<usize>) -> Strategy {
    if chosen is Cube && widths.len() > 0 && !widths.contains(k) {
        Strategy::Tuned
    } else {
        chosen
    }
}

/// The kernel for a product of width `k`.
pub fn matmul_strategy_for(k: usize, chosen: Strategy, widths: &Vec<usize>) -> (strategy: Strategy)
    ensures
        strategy == strategy_for(k, chosen, widths@),
        strategy is Cube <==> chosen is Cube && (widths@.len() == 0 || widths@.contains(k)),
{
    match chosen {
        Strategy::Tuned => Strategy::Tuned,
        Strategy::Cube => {
            if widths.len() == 0 {
                return Strategy::Cube;
            }
            let mut i: usize = 0;
            while i < widths.len()
                invariant
                    i <= widths@.len(),
                    chosen is Cube,
                    forall|j: int| 0 <= j < i ==> #[trigger] widths@[j] != k,
                decreases widths@.len() - i,
            {
                if widths[i] == k {
                    assert(widths@.contains(k));
                    return Strategy::Cube;
                }
                i = i + 1;
            }
            assert(widths@.len() > 0 && !widths@.contains(k));
            Strategy::Tuned
        },
    }
}

/// The operand width that is set: half precision only by its name.
pub fn operand_dtype(setting: Option<&str>) -> (operand: Operand)
    ensures
        operand == (if setting matches Some(v) && v@ == "f16"@ {
            Operand::Narrow
        } else {
            Operand::Wide
        }),
{
    match setting {
        Some(v) => if same_text(v, "f16") {
            Operand::Narrow
        } else {
            Operand::Wide
        },
        None => Operand::Wide,
    }
}

/// The text that describes how large products are carried out.
pub open spec fn summary_text(
    threshold: usize,
    strategy: Strategy,
    operand: Operand,
    widths: Seq<usize>,
) -> Seq<char> {
    if threshold == usize::MAX {
        "batched matmul OFF (COMBS_QMATMUL_BATCHED=0)"@
    } else {
        "batched matmul from "@ + decimal(threshold as int) + " rows, "@ + (
        if strategy is Cube {
            "cube (DIAGNOSTIC)"@
        } else {
            "tuned"@
        }) + " kernel, "@ + (if operand is Narrow {
            "f16 operands/f32 accumulator"@
        } else {
            "f32 operands"@
        }) + (if widths.len() == 0 {
            Seq::empty()
        } else {
            ", cube limited to k in ["@ + crate::error::listed(widths) + "]"@
        })
    }
}

/// Describes how large products are carried out, so that a run records it.
pub fn batched_matmul_summary(
    threshold: usize,
    strategy: Strategy,
    operand: Operand,
    widths: &Vec<usize>,
) -> (text: String)
    ensures
        text@ == summary_text(threshold, strategy, operand, widths@),
        threshold == usize::MAX ==> text@ == "batched matmul OFF (COMBS_QMATMUL_BATCHED=0)"@,
        threshold < usize::MAX && widths@.len() == 0 ==> text@ == "batched matmul from "@
            + decimal(threshold as int) + " rows, "@ + (if strategy is Cube {
            "cube (DIAGNOSTIC)"@
        } else {
            "tuned"@
        }) + " kernel, "@ + (if operand is Narrow {
            "f16 operands/f32 accumulator"@
        } else {
            "f32 operands"@
        }),
        threshold < usize::MAX && widths@.len() > 0 ==> text@ == "batched matmul from "@ + decimal(
            threshold as int,
        ) + " rows, "@ + (if strategy is Cube {
            "cube (DIAGNOSTIC)"@
        } else {
            "tuned"@
        }) + " kernel, "@ + (if operand is Narrow {
            "f16 operands/f32 accumulator"@
        } else {
            "f32 operands"@
        }) + (", cube limited to k in ["@ + crate::error::listed(widths@) + "]"@),
{
    if threshold == usize::MAX {
        return "batched matmul OFF (COMBS_QMATMUL_BATCHED=0)".to_owned();
    }
    let mut text: String = "batched matmul from ".to_owned();
    let rows: String = decimal_text(threshold);
    text.append(rows.as_str());
    text.append(" rows, ");
    match strategy {
        Strategy::Cube => text.append("cube (DIAGNOSTIC)"),
        Strategy::Tuned => text.append("tuned"),
    }
    text.append(" kernel, ");
    match operand {
        Operand::Narrow => text.append("f16 operands/f32 accumulator"),
        Operand::Wide => text.append("f32 operands"),
    }
    if widths.len() == 0 {
        assert(text@ + Seq::<char>::empty() =~= text@);
    } else {
        let ghost before = text@;
        text.append(", cube limited to k in [");
        let listed: String = crate::error::list_text(widths);
        text.append(listed.as_str());
        text.append("]");
        assert(text@ =~= before + (", cube limited to k in ["@ + crate::error::listed(widths@)
            + "]"@));
    }
    text
}

/// How one large product is carried out.
#[derive(Debug, Clone, Copy, PartialEq, Eq, Structural)]
pub struct BatchedPlan {
    /// Rows of the input.
    pub m: usize,
    /// Width of the input.
    pub k: usize,
    /// Columns of the output.
    pub n_out: usize,
    /// Scale the input by a power of two so that its largest magnitude is at
    /// most one, narrow it, and scale the output back.
    pub normalize: bool,
    /// Kernel to use.
    pub strategy: Strategy,
}

/// Whether and how a product of `batch * seq` rows with an `[n_out, k]` weight
/// is carried out as one large product.
pub fn try_batched_matmul_with(
    batch: usize,
    seq: usize,
    n_out: usize,
    k: usize,
    threshold: usize,
    operand: Operand,
    chosen: Strategy,
    widths: &Vec<usize>,
) -> (plan: Option<BatchedPlan>)
    requires
        batch * seq <= usize::MAX,
    ensures
        plan == (if batch * seq < threshold {
            None
        } else {
            Some(
                BatchedPlan {
                    m: (batch * seq) as usize,
                    k,
                    n_out,
                    normalize: operand is Narrow,
                    strategy: strategy_for(k, chosen, widths@),
                },
            )
        }),
        plan is Some <==> batch * seq >= threshold,
        plan matches Some(p) ==> (p.strategy is Cube <==> chosen is Cube && (widths@.len() == 0
            || widths@.contains(k))),
{
    let m: usize = batch * seq;
    if m < threshold {
        return None;
    }
    let normalize: bool = match operand {
        Operand::Narrow => true,
        Operand::Wide => false,
    };
    Some(
        BatchedPlan {
            m,
            k,
            n_out,
            normalize,
            strategy: matmul_strategy_for(k, chosen, widths),
        },
    )
}

/// Whether the kernels run on a backend.
pub fn supported(backend: BackendKind) -> (yes: bool)
    ensures
        yes == !(backend is Other),
{
    match backend {
        BackendKind::Other => false,
        _ => true,
    }
}

/// What is counted when a layer is not even looked up in packed form.
pub open spec fn gate_outcome(backend: BackendKind, on_device: bool) -> Option<Seq<char>> {
    if backend is Other {
        Some("backend not wgpu f32/f16 — dense fallback"@)
    } else if !on_device {
        Some("device not WgpuDevice — dense fallback"@)
    } else {
        None
    }
}

/// Whether a layer should be looked up in packed form: the kernels are not
/// disabled and run on this backend and device. A refusal for the backend or
/// the device is counted.
pub fn open_quant_linear(
    census: &mut QuantCensus,
    disabled: bool,
    backend: BackendKind,
    on_device: bool,
) -> (open: bool)
    requires
        distinct(old(census)@),
    ensures
        distinct(final(census)@),
        open == (!disabled && !(backend is Other) && on_device),
        final(census)@ == (match gate_outcome(backend, on_device) {
            Some(outcome) if !disabled => counted(old(census)@, outcome),
            _ => old(census)@,
        }),
        open || disabled ==> final(census)@ == old(census)@,
        !disabled && backend is Other ==> final(census)@ == counted(
            old(census)@,
            "backend not wgpu f32/f16 — dense fallback"@,
        ),
        !disabled && !(backend is Other) && !on_device ==> final(census)@ == counted(
            old(census)@,
            "device not WgpuDevice — dense fallback"@,
        ),
{
    if disabled {
        return false;
    }
    if !supported(backend) {
        census.record("backend not wgpu f32/f16 — dense fallback");
        return false;
    }
    if !on_device {
        census.record("device not WgpuDevice — dense fallback");
        return false;
    }
    true
}

/// The tensor is a matrix that its format can hold.
pub open spec fn packs(tensor: QuantTensor) -> bool {
    &&& tensor.shape@.len() == 2
    &&& tensor.data@.len() > 0
    &&& weight_fits(
        tensor.data@.len() as int,
        tensor.shape@[0] as int,
        tensor.shape@[1] as int,
        block_values(tensor.format),
        block_bytes(tensor.format),
    )
}

/// `weight` is the weight that `tensor` holds.
pub open spec fn weight_of(weight: QuantWeight, tensor: QuantTensor) -> bool {
    &&& weight.format() == tensor.format
    &&& weight.valid()
    &&& weight.rows() == tensor.shape@[0]
    &&& weight.cols() == tensor.shape@[1]
    &&& weight.holds(tensor.data@)
}

/// What is counted for a layer that was looked up in packed form.
pub open spec fn linear_outcome(opened: Option<QuantTensor>) -> Seq<char> {
    match opened {
        None => "no packed quant tensor — dense fallback"@,
        Some(tensor) => if tensor.shape@.len() != 2 {
            "not rank-2 — dense fallback"@
        } else if !packs(tensor) {
            "kernel-incompatible shape — dense fallback"@
        } else {
            "packed on device"@
        },
    }
}

/// Builds the packed weight of a layer from what the checkpoint holds. Without
/// a packed matrix that its format can hold, the layer goes the dense way; only
/// a checkpoint that cannot be read is an error. Every decision is counted.
pub fn try_quant_linear(
    census: &mut QuantCensus,
    opened: std::result::Result<Option<QuantTensor>, String>,
) -> (r: Result<Option<QuantWeight>>)
    requires
        distinct(old(census)@),
    ensures
        distinct(final(census)@),
        match opened {
            Err(what) => {
                &&& r matches Err(ModelError::Format(t)) && t == what
                &&& final(census)@ == old(census)@
            },
            Ok(tensor) => {
                &&& r is Ok
                &&& final(census)@ == counted(old(census)@, linear_outcome(tensor))
                &&& match r->Ok_0 {
                    Some(weight) => tensor is Some && packs(tensor->0) && weight_of(
                        weight,
                        tensor->0,
                    ),
                    None => tensor is None || !packs(tensor->0),
                }
            },
        },
{
    let tensor: Option<QuantTensor> = match opened {
        Err(what) => {
            return Err(ModelError::Format(what));
        },
        Ok(tensor) => tensor,
    };
    match tensor {
        None => {
            census.record("no packed quant tensor — dense fallback");
            Ok(None)
        },
        Some(tensor) => {
            if tensor.shape.len() != 2 {
                census.record("not rank-2 — dense fallback");
                return Ok(None);
            }
            match QuantWeight::from_quant_tensor(
                tensor.format,
                tensor.data.as_slice(),
                tensor.shape[0],
                tensor.shape[1],
            ) {
                Err(_) => {
                    census.record("kernel-incompatible shape — dense fallback");
                    Ok(None)
                },
                Ok(weight) => {
                    census.record("packed on device");
                    Ok(Some(weight))
                },
            }
        },
    }
}

/// Whether the embedding table should be looked up in packed form.
pub fn open_quant_embedding(
    disabled: bool,
    embed_disabled: bool,
    backend: BackendKind,
    on_device: bool,
) -> (open: bool)
    ensures
        open == (!disabled && !embed_disabled && !(backend is Other) && on_device),
{
    !disabled && !embed_disabled && supported(backend) && on_device
}

/// Builds the packed embedding table from what the checkpoint holds: a packed
/// matrix whose format has a row lookup. The same weight serves as the output
/// head where that is tied to the embedding.
pub fn try_quant_embedding(opened: std::result::Result<Option<QuantTensor>, String>) -> (r: Result<
    Option<QuantWeight>,
>)
    ensures
        match opened {
            Err(what) => r matches Err(ModelError::Format(t)) && t == what,
            Ok(tensor) => {
                &&& r is Ok
                &&& match r->Ok_0 {
                    Some(weight) => tensor is Some && packs(tensor->0) && gathers(
                        tensor->0.format,
                    ) && weight_of(weight, tensor->0),
                    None => tensor is None || !packs(tensor->0) || !gathers(tensor->0.format),
                }
            },
        },
{
    let tensor: Option<QuantTensor> = match opened {
        Err(what) => {
            return Err(ModelError::Format(what));
        },
        Ok(tensor) => tensor,
    };
    match tensor {
        None => Ok(None),
        Some(tensor) => {
            if tensor.shape.len() != 2 {
                return Ok(None);
            }
            match QuantWeight::from_quant_tensor(
                tensor.format,
                tensor.data.as_slice(),
                tensor.shape[0],
                tensor.shape[1],
            ) {
                Err(_) => Ok(None),
                Ok(weight) => {
                    if weight.supports_gather() {
                        Ok(Some(weight))
                    } else {
                        Ok(None)
                    }
                },
            }
        },
    }
}

/// A packed tensor serves a layer exactly if it is a matrix of whole blocks along
/// its rows and not empty; whatever happens is counted under its own name.
pub proof fn law_packed_tensors_are_matrices_of_blocks(tensor: QuantTensor)
    ensures
        packs(tensor) <==> tensor.shape@.len() == 2 && tensor.data@.len() > 0 && tensor.shape@[1]
            > 0 && {
            let (rows, cols) = (tensor.shape@[0] as int, tensor.shape@[1] as int);
            match tensor.format {
                QuantFormat::Q4_0 => cols % 32 == 0 && tensor.data@.len() == rows * (cols / 32)
                    * 18,
                QuantFormat::Q5_0 => cols % 32 == 0 && tensor.data@.len() == rows * (cols / 32)
                    * 22,
                QuantFormat::Q8_0 => cols % 32 == 0 && tensor.data@.len() == rows * (cols / 32)
                    * 34,
                QuantFormat::Q4K => cols % 256 == 0 && tensor.data@.len() == rows * (cols / 256)
                    * 144,
                QuantFormat::Q5K => cols % 256 == 0 && tensor.data@.len() == rows * (cols / 256)
                    * 176,
                QuantFormat::Q6K => cols % 256 == 0 && tensor.data@.len() == rows * (cols / 256)
                    * 210,
            }
        },
        packs(tensor) ==> linear_outcome(Some(tensor)) == "packed on device"@,
        tensor.shape@.len() != 2 ==> linear_outcome(Some(tensor))
            == "not rank-2 — dense fallback"@,
        tensor.shape@.len() == 2 && !packs(tensor) ==> linear_outcome(Some(tensor))
            == "kernel-incompatible shape — dense fallback"@,
        linear_outcome(None) == "no packed quant tensor — dense fallback"@,
{
    if tensor.shape@.len() == 2 {
        crate::quant_weight::law_accepted_bytes(
            tensor.format,
            tensor.data@.len() as int,
            tensor.shape@[0] as int,
            tensor.shape@[1] as int,
        );
    }
}

/// The weight of a layer holds the matrix of the tensor that it was built from.
pub proof fn law_weights_keep_shape_and_format(weight: QuantWeight, tensor: QuantTensor)
    requires
        weight_of(weight, tensor),
    ensures
        weight.rows() == tensor.shape@[0],
        weight.cols() == tensor.shape@[1],
        weight.holds(tensor.data@),
        weight is Q40 <==> tensor.format is Q4_0,
        weight is Q50 <==> tensor.format is Q5_0,
        weight is Q80 <==> tensor.format is Q8_0,
        weight is Q4K <==> tensor.format is Q4K,
        weight is Q5K <==> tensor.format is Q5K,
        weight is Q6K <==> tensor.format is Q6K,
{
}

} // verus!
