//! Output formats and the options that select them.
use vstd::prelude::*;
use vstd::string::*;

use crate::decimal::parse_usize;
#[allow(unused_imports)]
use crate::decimal::read_usize;
use crate::text::same;

verus! {

/// The format of the quantized weights of a safetensors model.
#[derive(Clone, Copy, Debug, PartialEq, Eq, Structural)]
pub enum Format {
    /// All weights Q8.
    Q8,
    /// Q8 attention and Q4_K feed-forward weights.
    Mixed,
    /// Q8 attention and four-bit feed-forward weights in the Q8 layout.
    Fast,
    /// Q8 in rows with split metadata.
    Q8Hfq,
    /// All weights Q4_K.
    Q4K,
    /// Q4_K with Q8 embeddings and output.
    Q4KQ8Embed,
    /// Rotated eight-bit.
    Mq8,
    /// Rotated four-bit.
    Mq4,
    /// Four-bit.
    Hfq4,
    /// Three-bit in groups of 256.
    Hfq3G256,
    /// Three-bit in groups of 128.
    Hfq3,
    /// Two-bit in groups of 256.
    Hfq2G256,
    /// Two-bit in groups of 128.
    Hfq2,
    /// Q8 attention and four-bit feed-forward weights.
    HfqMixed,
    /// Rotated six-bit.
    Mq6,
    /// Rotated four-bit with six-bit routed experts.
    Mq4Mq6Experts,
    /// Rotated four-bit; routed experts go through a two-bit codebook first.
    Mq2LloydProbe,
    /// Rotated four-bit; all routed experts have two-bit codebooks.
    Mq2LloydNative,
    /// The same, but promoted experts are six-bit.
    Mq2LloydKmap,
    /// The same, with codebooks fitted by importance.
    Mq2LloydImatrix,
    /// Rotated four-bit; routed experts have three-bit codebooks.
    Mq3LloydKmap,
    /// Three-bit codebooks for the most active layers, two-bit for the others.
    Tiered,
    /// Two-bit codebooks for gate and up projections, three-bit for down.
    Asymmetric,
    /// The same, with error feedback on the two-bit side.
    AsymmetricGptq,
    /// Two-bit codebooks with error feedback for all routed experts.
    Mq2Gptq,
    /// Rotated three-bit.
    Mq3,
    /// Rotated two-bit.
    Mq2,
    /// Rotated two-bit with codebooks.
    Mq2Lloyd,
    /// Rotated three-bit with codebooks.
    Mq3Lloyd,
    /// Six-bit.
    Hfq6,
    /// Four-bit floating point.
    Hfp4,
    /// Rotated four-bit floating point.
    Mfp4,
    /// Four-bit with `f16` scales, for every other name.
    Q4,
}

/// The format that a name selects.
pub open spec fn format_of(flag: Seq<char>) -> Format {
    if flag == "q8f16"@ || flag == "q8"@ {
        Format::Q8
    } else if flag == "q8-mixed"@ || flag == "mixed"@ {
        Format::Mixed
    } else if flag == "q8-fast"@ || flag == "fast"@ {
        Format::Fast
    } else if flag == "q8hfq"@ {
        Format::Q8Hfq
    } else if flag == "q4k"@ {
        Format::Q4K
    } else if flag == "q4k-q8embed"@ {
        Format::Q4KQ8Embed
    } else if flag == "mq8"@ || flag == "mq8g256"@ {
        Format::Mq8
    } else if flag == "mq4"@ || flag == "mq4g256"@ || flag == "magnum"@ {
        Format::Mq4
    } else if flag == "hfq4g256"@ || flag == "hfq4"@ || flag == "hf4"@ {
        Format::Hfq4
    } else if flag == "hfq3g256"@ {
        Format::Hfq3G256
    } else if flag == "hfq3g128"@ || flag == "hfq3"@ || flag == "hf3"@ {
        Format::Hfq3
    } else if flag == "hfq2g256"@ {
        Format::Hfq2G256
    } else if flag == "hfq2g128"@ || flag == "hfq2"@ || flag == "hf2"@ {
        Format::Hfq2
    } else if flag == "hfq-mixed"@ {
        Format::HfqMixed
    } else if flag == "mq6"@ || flag == "mq6g256"@ {
        Format::Mq6
    } else if flag == "mq4-mq6exp"@ || flag == "mq4-mq6experts"@ {
        Format::Mq4Mq6Experts
    } else if flag == "mq4-mq2lloydexp"@ || flag == "mq4-mq2lloydexperts"@ || flag == "mq4-mq2lloyd-exp"@ {
        Format::Mq2LloydProbe
    } else if flag == "mq4-mq2lloyd-native"@ || flag == "mq4-mq2lloydexp-native"@ || flag == "mq4-mq2lloyd-routed"@ {
        Format::Mq2LloydNative
    } else if flag == "mq4-mq2lloyd-kmap"@ || flag == "mq4-mq2lloyd-respectkmap"@ || flag == "mq4-mq2lloyd-kmap-promote"@ {
        Format::Mq2LloydKmap
    } else if flag == "mq4-mq2lloyd-imatrix"@ || flag == "mq4-mq2lloyd-kmap-imatrix"@ || flag == "mq4-mq2lloyd-imatrix-kmap"@ {
        Format::Mq2LloydImatrix
    } else if flag == "mq4-mq3lloyd-kmap"@ || flag == "mq4-mq3lloyd-routed"@ || flag == "mq4-mq3lloyd-exp"@ {
        Format::Mq3LloydKmap
    } else if flag == "mq4-mqlloyd-tiered"@ || flag == "mq4-mqlloyd-tiered-imatrix"@ || flag == "mqlloyd-tiered"@ {
        Format::Tiered
    } else if flag == "mq4-mqlloyd-antirez"@ || flag == "mq4-mqlloyd-asym"@ || flag == "antirez-mq"@ {
        Format::Asymmetric
    } else if flag == "mq4-mqlloyd-antirez-gptq"@ || flag == "mq4-mqlloyd-asym-gptq"@ || flag == "antirez-mq-gptq"@ {
        Format::AsymmetricGptq
    } else if flag == "mq4-mq2lloyd-gptq-all"@ || flag == "mq4-mq2lloyd-gptq"@ || flag == "all-mq2-gptq"@ {
        Format::Mq2Gptq
    } else if flag == "mq3"@ || flag == "mq3g256"@ {
        Format::Mq3
    } else if flag == "mq2"@ || flag == "mq2g256"@ {
        Format::Mq2
    } else if flag == "mq2-lloyd"@ || flag == "mq2g256-lloyd"@ || flag == "mq2lloyd"@ {
        Format::Mq2Lloyd
    } else if flag == "mq3-lloyd"@ || flag == "mq3g256-lloyd"@ || flag == "mq3lloyd"@ {
        Format::Mq3Lloyd
    } else if flag == "hfq6"@ || flag == "hfq6g256"@ || flag == "hf6"@ {
        Format::Hfq6
    } else if flag == "hfp4"@ || flag == "hfp4g32"@ || flag == "hf4p"@ || flag == "fp4"@ {
        Format::Hfp4
    } else if flag == "mfp4"@ || flag == "mfp4g32"@ || flag == "mf4p"@ {
        Format::Mfp4
    } else {
        Format::Q4
    }
}

impl Format {
    /// The format that a name selects.
    pub fn from_flag(flag: &str) -> (r: Format)
        ensures
            r == format_of(flag@),
    {
        if same(flag, "q8f16") || same(flag, "q8") {
            Format::Q8
        } else if same(flag, "q8-mixed") || same(flag, "mixed") {
            Format::Mixed
        } else if same(flag, "q8-fast") || same(flag, "fast") {
            Format::Fast
        } else if same(flag, "q8hfq") {
            Format::Q8Hfq
        } else if same(flag, "q4k") {
            Format::Q4K
        } else if same(flag, "q4k-q8embed") {
            Format::Q4KQ8Embed
        } else if same(flag, "mq8") || same(flag, "mq8g256") {
            Format::Mq8
        } else if same(flag, "mq4") || same(flag, "mq4g256") || same(flag, "magnum") {
            Format::Mq4
        } else if same(flag, "hfq4g256") || same(flag, "hfq4") || same(flag, "hf4") {
            Format::Hfq4
        } else if same(flag, "hfq3g256") {
            Format::Hfq3G256
        } else if same(flag, "hfq3g128") || same(flag, "hfq3") || same(flag, "hf3") {
            Format::Hfq3
        } else if same(flag, "hfq2g256") {
            Format::Hfq2G256
        } else if same(flag, "hfq2g128") || same(flag, "hfq2") || same(flag, "hf2") {
            Format::Hfq2
        } else if same(flag, "hfq-mixed") {
            Format::HfqMixed
        } else if same(flag, "mq6") || same(flag, "mq6g256") {
            Format::Mq6
        } else if same(flag, "mq4-mq6exp") || same(flag, "mq4-mq6experts") {
            Format::Mq4Mq6Experts
        } else if same(flag, "mq4-mq2lloydexp") || same(flag, "mq4-mq2lloydexperts") || same(flag, "mq4-mq2lloyd-exp") {
            Format::Mq2LloydProbe
        } else if same(flag, "mq4-mq2lloyd-native") || same(flag, "mq4-mq2lloydexp-native") || same(flag, "mq4-mq2lloyd-routed") {
            Format::Mq2LloydNative
        } else if same(flag, "mq4-mq2lloyd-kmap") || same(flag, "mq4-mq2lloyd-respectkmap") || same(flag, "mq4-mq2lloyd-kmap-promote") {
            Format::Mq2LloydKmap
        } else if same(flag, "mq4-mq2lloyd-imatrix") || same(flag, "mq4-mq2lloyd-kmap-imatrix") || same(flag, "mq4-mq2lloyd-imatrix-kmap") {
            Format::Mq2LloydImatrix
        } else if same(flag, "mq4-mq3lloyd-kmap") || same(flag, "mq4-mq3lloyd-routed") || same(flag, "mq4-mq3lloyd-exp") {
            Format::Mq3LloydKmap
        } else if same(flag, "mq4-mqlloyd-tiered") || same(flag, "mq4-mqlloyd-tiered-imatrix") || same(flag, "mqlloyd-tiered") {
            Format::Tiered
        } else if same(flag, "mq4-mqlloyd-antirez") || same(flag, "mq4-mqlloyd-asym") || same(flag, "antirez-mq") {
            Format::Asymmetric
        } else if same(flag, "mq4-mqlloyd-antirez-gptq") || same(flag, "mq4-mqlloyd-asym-gptq") || same(flag, "antirez-mq-gptq") {
            Format::AsymmetricGptq
        } else if same(flag, "mq4-mq2lloyd-gptq-all") || same(flag, "mq4-mq2lloyd-gptq") || same(flag, "all-mq2-gptq") {
            Format::Mq2Gptq
        } else if same(flag, "mq3") || same(flag, "mq3g256") {
            Format::Mq3
        } else if same(flag, "mq2") || same(flag, "mq2g256") {
            Format::Mq2
        } else if same(flag, "mq2-lloyd") || same(flag, "mq2g256-lloyd") || same(flag, "mq2lloyd") {
            Format::Mq2Lloyd
        } else if same(flag, "mq3-lloyd") || same(flag, "mq3g256-lloyd") || same(flag, "mq3lloyd") {
            Format::Mq3Lloyd
        } else if same(flag, "hfq6") || same(flag, "hfq6g256") || same(flag, "hf6") {
            Format::Hfq6
        } else if same(flag, "hfp4") || same(flag, "hfp4g32") || same(flag, "hf4p") || same(flag, "fp4") {
            Format::Hfp4
        } else if same(flag, "mfp4") || same(flag, "mfp4g32") || same(flag, "mf4p") {
            Format::Mfp4
        } else {
            Format::Q4
        }
    }
}

/// Formats whose weights outside the routed experts are rotated four-bit.
pub open spec fn is_mq4_family(f: Format) -> bool {
    match f {
        Format::Mq4
        | Format::Mq4Mq6Experts
        | Format::Mq2LloydProbe
        | Format::Mq2LloydNative
        | Format::Mq2LloydKmap
        | Format::Mq2LloydImatrix
        | Format::Mq3LloydKmap
        | Format::Tiered
        | Format::Asymmetric
        | Format::AsymmetricGptq
        | Format::Mq2Gptq => true,
        _ => false,
    }
}

/// Formats that are fitted by an importance matrix.
pub open spec fn needs_imatrix(f: Format) -> bool {
    match f {
        Format::AsymmetricGptq
        | Format::Mq2Gptq
        | Format::Asymmetric
        | Format::Tiered
        | Format::Mq2LloydImatrix => true,
        _ => false,
    }
}

/// Mixed formats that use three-bit codebooks for some tensors.
pub open spec fn mixes_mq3_lloyd(f: Format) -> bool {
    match f {
        Format::Mq3LloydKmap
        | Format::AsymmetricGptq
        | Format::Asymmetric
        | Format::Tiered => true,
        _ => false,
    }
}

/// Formats under the guard of two-bit codebooks.
pub open spec fn guarded_mq2_lloyd(f: Format) -> bool {
    match f {
        Format::Mq2Lloyd
        | Format::Mq2LloydProbe
        | Format::Mq2LloydNative
        | Format::Mq2LloydKmap
        | Format::Mq2LloydImatrix
        | Format::Mq3LloydKmap
        | Format::Tiered
        | Format::Asymmetric
        | Format::AsymmetricGptq
        | Format::Mq2Gptq => true,
        _ => false,
    }
}

impl Format {
    /// Whether the weights outside the routed experts are rotated four-bit.
    pub fn mq4_family(self) -> (r: bool)
        ensures
            r == is_mq4_family(self),
    {
        match self {
            Format::Mq4
            | Format::Mq4Mq6Experts
            | Format::Mq2LloydProbe
            | Format::Mq2LloydNative
            | Format::Mq2LloydKmap
            | Format::Mq2LloydImatrix
            | Format::Mq3LloydKmap
            | Format::Tiered
            | Format::Asymmetric
            | Format::AsymmetricGptq
            | Format::Mq2Gptq => true,
            _ => false,
        }
    }
}

/// What the user has opted into.
#[derive(Clone, Copy, Debug, PartialEq, Eq, Structural)]
pub struct Consent {
    pub imatrix: bool,
    pub mq2: bool,
    pub mq2_lloyd: bool,
    pub mq3_lloyd: bool,
}

/// Why a format is refused.
#[derive(Clone, Copy, Debug, PartialEq, Eq, Structural)]
pub enum Refusal {
    /// The format needs an importance matrix.
    NeedsImatrix,
    /// The format mixes in three-bit codebooks, which need consent.
    NeedsMq3Lloyd,
    /// Plain two-bit needs consent.
    Mq2Reserved,
    /// Three-bit codebooks need consent.
    Mq3LloydResearch,
    /// Two-bit codebooks need consent.
    Mq2LloydResearch,
}

/// Why a format is refused, if it is: first what it lacks, then what it needs
/// consent for.
pub open spec fn refusal_of(f: Format, c: Consent) -> Option<Refusal> {
    if needs_imatrix(f) && !c.imatrix {
        Some(Refusal::NeedsImatrix)
    } else if mixes_mq3_lloyd(f) && !c.mq3_lloyd {
        Some(Refusal::NeedsMq3Lloyd)
    } else if f == Format::Mq2 && !c.mq2 {
        Some(Refusal::Mq2Reserved)
    } else if f == Format::Mq3Lloyd && !c.mq3_lloyd {
        Some(Refusal::Mq3LloydResearch)
    } else if guarded_mq2_lloyd(f) && !c.mq2_lloyd {
        Some(Refusal::Mq2LloydResearch)
    } else {
        None
    }
}

/// Tests a format against what the user has opted into.
pub fn guard_format(f: Format, c: Consent) -> (r: Option<Refusal>)
    ensures
        r == refusal_of(f, c),
{
    let imatrix = matches!(
        f,
        Format::AsymmetricGptq
        | Format::Mq2Gptq
        | Format::Asymmetric
        | Format::Tiered
        | Format::Mq2LloydImatrix
    );
    if imatrix && !c.imatrix {
        return Some(Refusal::NeedsImatrix);
    }
    let mixes = matches!(
        f,
        Format::Mq3LloydKmap | Format::AsymmetricGptq | Format::Asymmetric | Format::Tiered
    );
    if mixes && !c.mq3_lloyd {
        return Some(Refusal::NeedsMq3Lloyd);
    }
    if matches!(f, Format::Mq2) && !c.mq2 {
        return Some(Refusal::Mq2Reserved);
    }
    if matches!(f, Format::Mq3Lloyd) && !c.mq3_lloyd {
        return Some(Refusal::Mq3LloydResearch);
    }
    let guarded = matches!(
        f,
        Format::Mq2Lloyd
        | Format::Mq2LloydProbe
        | Format::Mq2LloydNative
        | Format::Mq2LloydKmap
        | Format::Mq2LloydImatrix
        | Format::Mq3LloydKmap
        | Format::Tiered
        | Format::Asymmetric
        | Format::AsymmetricGptq
        | Format::Mq2Gptq
    );
    if guarded && !c.mq2_lloyd {
        return Some(Refusal::Mq2LloydResearch);
    }
    None
}

/// The exit code of a refusal.
pub fn exit_code(r: Refusal) -> (code: i32)
    ensures
        code == (match r {
            Refusal::NeedsImatrix => 2int,
            Refusal::NeedsMq3Lloyd => 2,
            _ => 1,
        }),
{
    match r {
        Refusal::NeedsImatrix => 2,
        Refusal::NeedsMq3Lloyd => 2,
        _ => 1,
    }
}

/// With full consent and an importance matrix no format is refused, and a format
/// that is refused with some consent is refused with less.
pub proof fn law_consent_only_helps(f: Format, less: Consent, more: Consent)
    requires
        less.imatrix ==> more.imatrix,
        less.mq2 ==> more.mq2,
        less.mq2_lloyd ==> more.mq2_lloyd,
        less.mq3_lloyd ==> more.mq3_lloyd,
    ensures
        refusal_of(f, more) is Some ==> refusal_of(f, less) is Some,
        more.imatrix && more.mq2 && more.mq2_lloyd && more.mq3_lloyd ==> refusal_of(f, more)
            is None,
{
}

/// The format of the quantized weights of a GGUF model.
#[derive(Clone, Copy, Debug, PartialEq, Eq, Structural)]
pub enum GgufFormat {
    Hfq4,
    Hfq6,
    Mq4,
    Mq6,
    Mq3,
    Mq2,
    Mq2Lloyd,
    Mq3Lloyd,
    Hfq1,
    Hfp4,
    Mfp4,
}

/// The GGUF format that a name selects, if there is one.
pub open spec fn gguf_format_of(flag: Seq<char>) -> Option<GgufFormat> {
    if flag == "hfq4"@ || flag == "hfq4g256"@ || flag == "hf4"@ {
        Some(GgufFormat::Hfq4)
    } else if flag == "hfq6"@ || flag == "hfq6g256"@ || flag == "hf6"@ {
        Some(GgufFormat::Hfq6)
    } else if flag == "mq4"@ || flag == "mq4g256"@ || flag == "magnum"@ {
        Some(GgufFormat::Mq4)
    } else if flag == "mq6"@ || flag == "mq6g256"@ {
        Some(GgufFormat::Mq6)
    } else if flag == "mq3"@ || flag == "mq3g256"@ {
        Some(GgufFormat::Mq3)
    } else if flag == "mq2"@ || flag == "mq2g256"@ {
        Some(GgufFormat::Mq2)
    } else if flag == "mq2-lloyd"@ || flag == "mq2g256-lloyd"@ || flag == "mq2lloyd"@ {
        Some(GgufFormat::Mq2Lloyd)
    } else if flag == "mq3-lloyd"@ || flag == "mq3g256-lloyd"@ || flag == "mq3lloyd"@ {
        Some(GgufFormat::Mq3Lloyd)
    } else if flag == "hfq1"@ || flag == "hfq1g128"@ || flag == "bonsai"@ {
        Some(GgufFormat::Hfq1)
    } else if flag == "hfp4"@ || flag == "hfp4g32"@ || flag == "hf4p"@ || flag == "fp4"@ {
        Some(GgufFormat::Hfp4)
    } else if flag == "mfp4"@ || flag == "mfp4g32"@ || flag == "mf4p"@ {
        Some(GgufFormat::Mfp4)
    } else {
        None
    }
}

/// The name of a GGUF format in messages.
pub open spec fn label_of(f: GgufFormat) -> Seq<char> {
    match f {
        GgufFormat::Hfq4 => "HFQ4G256"@,
        GgufFormat::Hfq6 => "HFQ6G256"@,
        GgufFormat::Mq4 => "MQ4G256"@,
        GgufFormat::Mq6 => "MQ6G256"@,
        GgufFormat::Mq3 => "MQ3G256"@,
        GgufFormat::Mq2 => "MQ2G256"@,
        GgufFormat::Mq2Lloyd => "MQ2G256Lloyd"@,
        GgufFormat::Mq3Lloyd => "MQ3G256Lloyd"@,
        GgufFormat::Hfq1 => "HFQ1G128"@,
        GgufFormat::Hfp4 => "HFP4G32"@,
        GgufFormat::Mfp4 => "MFP4G32"@,
    }
}

/// The weights of the format are rotated.
pub open spec fn is_rotated(f: GgufFormat) -> bool {
    match f {
        GgufFormat::Mq4
        | GgufFormat::Mq6
        | GgufFormat::Mq3
        | GgufFormat::Mq2
        | GgufFormat::Mq2Lloyd
        | GgufFormat::Mq3Lloyd
        | GgufFormat::Mfp4 => true,
        _ => false,
    }
}

impl GgufFormat {
    /// The GGUF format that a name selects, if there is one.
    pub fn from_flag(flag: &str) -> (r: Option<GgufFormat>)
        ensures
            r == gguf_format_of(flag@),
    {
        if same(flag, "hfq4") || same(flag, "hfq4g256") || same(flag, "hf4") {
            Some(GgufFormat::Hfq4)
        } else if same(flag, "hfq6") || same(flag, "hfq6g256") || same(flag, "hf6") {
            Some(GgufFormat::Hfq6)
        } else if same(flag, "mq4") || same(flag, "mq4g256") || same(flag, "magnum") {
            Some(GgufFormat::Mq4)
        } else if same(flag, "mq6") || same(flag, "mq6g256") {
            Some(GgufFormat::Mq6)
        } else if same(flag, "mq3") || same(flag, "mq3g256") {
            Some(GgufFormat::Mq3)
        } else if same(flag, "mq2") || same(flag, "mq2g256") {
            Some(GgufFormat::Mq2)
        } else if same(flag, "mq2-lloyd") || same(flag, "mq2g256-lloyd") || same(flag, "mq2lloyd") {
            Some(GgufFormat::Mq2Lloyd)
        } else if same(flag, "mq3-lloyd") || same(flag, "mq3g256-lloyd") || same(flag, "mq3lloyd") {
            Some(GgufFormat::Mq3Lloyd)
        } else if same(flag, "hfq1") || same(flag, "hfq1g128") || same(flag, "bonsai") {
            Some(GgufFormat::Hfq1)
        } else if same(flag, "hfp4") || same(flag, "hfp4g32") || same(flag, "hf4p") || same(
            flag,
            "fp4",
        ) {
            Some(GgufFormat::Hfp4)
        } else if same(flag, "mfp4") || same(flag, "mfp4g32") || same(flag, "mf4p") {
            Some(GgufFormat::Mfp4)
        } else {
            None
        }
    }

    /// The name of the format in messages.
    pub fn label(self) -> (r: &'static str)
        ensures
            r@ == label_of(self),
    {
        match self {
            GgufFormat::Hfq4 => "HFQ4G256",
            GgufFormat::Hfq6 => "HFQ6G256",
            GgufFormat::Mq4 => "MQ4G256",
            GgufFormat::Mq6 => "MQ6G256",
            GgufFormat::Mq3 => "MQ3G256",
            GgufFormat::Mq2 => "MQ2G256",
            GgufFormat::Mq2Lloyd => "MQ2G256Lloyd",
            GgufFormat::Mq3Lloyd => "MQ3G256Lloyd",
            GgufFormat::Hfq1 => "HFQ1G128",
            GgufFormat::Hfp4 => "HFP4G32",
            GgufFormat::Mfp4 => "MFP4G32",
        }
    }

    /// Whether the weights of the format are rotated.
    pub fn needs_signs(self) -> (r: bool)
        ensures
            r == is_rotated(self),
    {
        match self {
            GgufFormat::Mq4
            | GgufFormat::Mq6
            | GgufFormat::Mq3
            | GgufFormat::Mq2
            | GgufFormat::Mq2Lloyd
            | GgufFormat::Mq3Lloyd
            | GgufFormat::Mfp4 => true,
            _ => false,
        }
    }
}

// Options.

/// The position of the first argument that is this option.
pub open spec fn option_at(args: Seq<String>, option: Seq<char>) -> Option<int>
    decreases args.len(),
{
    if args.len() == 0 {
        None
    } else {
        match option_at(args.drop_last(), option) {
            Some(i) => Some(i),
            None => if args.last()@ == option {
                Some(args.len() - 1)
            } else {
                None
            },
        }
    }
}

/// Where an option stands in the arguments; the first one counts.
pub fn find_option(args: &[String], option: &str) -> (r: Option<usize>)
    ensures
        match r {
            Some(i) => option_at(args@, option@) == Some(i as int) && i < args@.len()
                && args@[i as int]@ == option@,
            None => option_at(args@, option@) is None,
        },
        r is None ==> forall|j: int| 0 <= j < args@.len() ==> #[trigger] args@[j]@ != option@,
        r is Some ==> forall|j: int| 0 <= j < r->0 ==> #[trigger] args@[j]@ != option@,
{
    let n: usize = args.len();
    let mut i: usize = 0;
    while i < n
        invariant
            i <= n,
            n == args@.len(),
            option_at(args@.take(i as int), option@) is None,
            forall|j: int| 0 <= j < i ==> #[trigger] args@[j]@ != option@,
        decreases n - i,
    {
        proof {
            assert(args@.take(i + 1).drop_last() =~= args@.take(i as int));
        }
        if same(args[i].as_str(), option) {
            proof {
                assert(option_at(args@.take(i + 1), option@) == Some(i as int));
                lemma_option_stays(args@, option@, i + 1);
            }
            return Some(i);
        }
        i = i + 1;
    }
    assert(args@.take(n as int) =~= args@);
    None
}

proof fn lemma_option_stays(args: Seq<String>, option: Seq<char>, n: int)
    requires
        0 <= n <= args.len(),
        option_at(args.take(n), option) is Some,
    ensures
        option_at(args, option) == option_at(args.take(n), option),
    decreases args.len(),
{
    if n == args.len() {
        assert(args.take(n) =~= args);
    } else {
        assert(args.drop_last().take(n) =~= args.take(n));
        lemma_option_stays(args.drop_last(), option, n);
    }
}

/// The first position of an option: it stands there, and nowhere before.
pub proof fn law_first_option_counts(args: Seq<String>, option: Seq<char>, j: int)
    requires
        0 <= j < args.len(),
        args[j]@ == option,
    ensures
        option_at(args, option) is Some,
        0 <= option_at(args, option)->0 <= j,
        args[option_at(args, option)->0]@ == option,
    decreases args.len(),
{
    let rest = args.drop_last();
    if j < rest.len() {
        law_first_option_counts(rest, option, j);
    } else {
        match option_at(rest, option) {
            Some(i) => {
                lemma_option_in_range(rest, option);
            },
            None => {},
        }
    }
}

proof fn lemma_option_in_range(args: Seq<String>, option: Seq<char>)
    requires
        option_at(args, option) is Some,
    ensures
        0 <= option_at(args, option)->0 < args.len(),
        args[option_at(args, option)->0]@ == option,
    decreases args.len(),
{
    if option_at(args.drop_last(), option) is Some {
        lemma_option_in_range(args.drop_last(), option);
    }
}

/// Whether a guarded feature is allowed: by its option, or by its environment
/// variable being `1`.
pub fn is_allowed(option_given: bool, variable: Option<&str>) -> (r: bool)
    ensures
        r == (option_given || (variable is Some && variable->0@ == "1"@)),
{
    option_given || match variable {
        Some(v) => same(v, "1"),
        None => false,
    }
}

/// The number of threads that leaves a fifth of the cores free, at least one.
pub open spec fn default_thread_count(cores: int) -> int {
    if cores * 8 / 10 < 1 {
        1
    } else {
        cores * 8 / 10
    }
}

/// The number of threads that leaves a fifth of the cores free, at least one.
pub fn default_threads(cores: usize) -> (r: usize)
    ensures
        r == default_thread_count(cores as int),
        r >= 1,
        cores >= 2 ==> 10 * r <= 8 * cores < 10 * r + 10,
{
    let n: usize = cores / 10 * 8 + cores % 10 * 8 / 10;
    if n < 1 {
        1
    } else {
        n
    }
}

/// A number given as text, if it is one.
pub open spec fn number_in(text: Option<&str>) -> Option<usize> {
    match text {
        Some(s) => read_usize(s@),
        None => None,
    }
}

/// The number of threads: from the option, else from the environment, else the
/// default. What is no number counts as absent.
pub fn thread_count(option: Option<&str>, variable: Option<&str>, cores: usize) -> (r: usize)
    ensures
        r == (match number_in(option) {
            Some(n) => n as int,
            None => match number_in(variable) {
                Some(n) => n as int,
                None => default_thread_count(cores as int),
            },
        }),
{
    let from_option: Option<usize> = match option {
        Some(s) => parse_usize(s),
        None => None,
    };
    match from_option {
        Some(n) => n,
        None => {
            let from_variable: Option<usize> = match variable {
                Some(s) => parse_usize(s),
                None => None,
            };
            match from_variable {
                Some(n) => n,
                None => default_threads(cores),
            }
        },
    }
}

/// The promotion mode that a name selects: 0 promotes every candidate, 1 the edges
/// and every third layer, 2 by tensor type.
pub open spec fn mode_of(value: Seq<char>) -> Option<u8> {
    if value == "full"@ || value == "0"@ {
        Some(0)
    } else if value == "alternating"@ || value == "alt"@ || value == "1"@ {
        Some(1)
    } else if value == "typed"@ || value == "2"@ {
        Some(2)
    } else {
        None
    }
}

/// The promotion mode that a name selects, if there is one.
pub fn parse_kmap_mode(value: &str) -> (r: Option<u8>)
    ensures
        r == mode_of(value@),
{
    if same(value, "full") || same(value, "0") {
        Some(0)
    } else if same(value, "alternating") || same(value, "alt") || same(value, "1") {
        Some(1)
    } else if same(value, "typed") || same(value, "2") {
        Some(2)
    } else {
        None
    }
}

/// The promotion mode: the named one, and mode 1 without a name or with an
/// unknown one.
pub fn kmap_mode(value: Option<&str>) -> (r: u8)
    ensures
        r == (match value {
            Some(v) => match mode_of(v@) {
                Some(m) => m,
                None => 1u8,
            },
            None => 1u8,
        }),
{
    match value {
        Some(v) => match parse_kmap_mode(v) {
            Some(m) => m,
            None => 1,
        },
        None => 1,
    }
}

/// Whether tensors are promoted at all: by default only for mixtures of experts.
pub fn kmap_enabled(disabled: bool, is_moe: bool, dense_wanted: bool) -> (r: bool)
    ensures
        r == (!disabled && (is_moe || dense_wanted)),
{
    !disabled && (is_moe || dense_wanted)
}

// Architectures.

/// The number of an architecture in the file, for a safetensors model; `None` for
/// an unknown one, which is treated as number 0.
pub open spec fn arch_of(model_type: Seq<char>) -> Option<u32> {
    if model_type == "llama"@ {
        Some(0)
    } else if model_type == "qwen3"@ || model_type == "qwen2"@ {
        Some(1)
    } else if model_type == "qwen3_5"@ || model_type == "qwen3_5_text"@ {
        Some(5)
    } else if model_type == "qwen3_5_moe"@ || model_type == "qwen3_5_moe_text"@ {
        Some(6)
    } else if model_type == "deepseek_v4"@ {
        Some(7)
    } else {
        None
    }
}

/// The number of an architecture in the file, for a safetensors model.
pub fn arch_id(model_type: &str) -> (r: Option<u32>)
    ensures
        r == arch_of(model_type@),
{
    if same(model_type, "llama") {
        Some(0)
    } else if same(model_type, "qwen3") || same(model_type, "qwen2") {
        Some(1)
    } else if same(model_type, "qwen3_5") || same(model_type, "qwen3_5_text") {
        Some(5)
    } else if same(model_type, "qwen3_5_moe") || same(model_type, "qwen3_5_moe_text") {
        Some(6)
    } else if same(model_type, "deepseek_v4") {
        Some(7)
    } else {
        None
    }
}

/// The number of an architecture in the file, for a GGUF model; `None` for an
/// unknown one, which is treated as number 0.
pub open spec fn gguf_arch_of(arch: Seq<char>) -> Option<u32> {
    if arch == "llama"@ {
        Some(0)
    } else if arch == "qwen3"@ || arch == "qwen2"@ {
        Some(1)
    } else if arch == "qwen3moe"@ {
        Some(6)
    } else {
        None
    }
}

/// The number of an architecture in the file, for a GGUF model.
pub fn gguf_arch_id(arch: &str) -> (r: Option<u32>)
    ensures
        r == gguf_arch_of(arch@),
{
    if same(arch, "llama") {
        Some(0)
    } else if same(arch, "qwen3") || same(arch, "qwen2") {
        Some(1)
    } else if same(arch, "qwen3moe") {
        Some(6)
    } else {
        None
    }
}

// What the flags and names select.

/// Each format is selected by its own flags and no others; a flag that selects none
/// of the others selects plain four-bit.
pub proof fn law_formats_have_flags(flag: Seq<char>)
    ensures
        match format_of(flag) {
            Format::Q8 => flag == "q8f16"@ || flag == "q8"@,
            Format::Mixed => flag == "q8-mixed"@ || flag == "mixed"@,
            Format::Fast => flag == "q8-fast"@ || flag == "fast"@,
            Format::Q8Hfq => flag == "q8hfq"@,
            Format::Q4K => flag == "q4k"@,
            Format::Q4KQ8Embed => flag == "q4k-q8embed"@,
            Format::Mq8 => flag == "mq8"@ || flag == "mq8g256"@,
            Format::Mq4 => flag == "mq4"@ || flag == "mq4g256"@ || flag == "magnum"@,
            Format::Hfq4 => flag == "hfq4g256"@ || flag == "hfq4"@ || flag == "hf4"@,
            Format::Hfq3G256 => flag == "hfq3g256"@,
            Format::Hfq3 => flag == "hfq3g128"@ || flag == "hfq3"@ || flag == "hf3"@,
            Format::Hfq2G256 => flag == "hfq2g256"@,
            Format::Hfq2 => flag == "hfq2g128"@ || flag == "hfq2"@ || flag == "hf2"@,
            Format::HfqMixed => flag == "hfq-mixed"@,
            Format::Mq6 => flag == "mq6"@ || flag == "mq6g256"@,
            Format::Mq4Mq6Experts => flag == "mq4-mq6exp"@ || flag == "mq4-mq6experts"@,
            Format::Mq2LloydProbe => flag == "mq4-mq2lloydexp"@ || flag == "mq4-mq2lloydexperts"@
                || flag == "mq4-mq2lloyd-exp"@,
            Format::Mq2LloydNative => flag == "mq4-mq2lloyd-native"@
                || flag == "mq4-mq2lloydexp-native"@ || flag == "mq4-mq2lloyd-routed"@,
            Format::Mq2LloydKmap => flag == "mq4-mq2lloyd-kmap"@
                || flag == "mq4-mq2lloyd-respectkmap"@ || flag == "mq4-mq2lloyd-kmap-promote"@,
            Format::Mq2LloydImatrix => flag == "mq4-mq2lloyd-imatrix"@
                || flag == "mq4-mq2lloyd-kmap-imatrix"@ || flag == "mq4-mq2lloyd-imatrix-kmap"@,
            Format::Mq3LloydKmap => flag == "mq4-mq3lloyd-kmap"@ || flag == "mq4-mq3lloyd-routed"@
                || flag == "mq4-mq3lloyd-exp"@,
            Format::Tiered => flag == "mq4-mqlloyd-tiered"@
                || flag == "mq4-mqlloyd-tiered-imatrix"@ || flag == "mqlloyd-tiered"@,
            Format::Asymmetric => flag == "mq4-mqlloyd-antirez"@ || flag == "mq4-mqlloyd-asym"@
                || flag == "antirez-mq"@,
            Format::AsymmetricGptq => flag == "mq4-mqlloyd-antirez-gptq"@
                || flag == "mq4-mqlloyd-asym-gptq"@ || flag == "antirez-mq-gptq"@,
            Format::Mq2Gptq => flag == "mq4-mq2lloyd-gptq-all"@ || flag == "mq4-mq2lloyd-gptq"@
                || flag == "all-mq2-gptq"@,
            Format::Mq3 => flag == "mq3"@ || flag == "mq3g256"@,
            Format::Mq2 => flag == "mq2"@ || flag == "mq2g256"@,
            Format::Mq2Lloyd => flag == "mq2-lloyd"@ || flag == "mq2g256-lloyd"@
                || flag == "mq2lloyd"@,
            Format::Mq3Lloyd => flag == "mq3-lloyd"@ || flag == "mq3g256-lloyd"@
                || flag == "mq3lloyd"@,
            Format::Hfq6 => flag == "hfq6"@ || flag == "hfq6g256"@ || flag == "hf6"@,
            Format::Hfp4 => flag == "hfp4"@ || flag == "hfp4g32"@ || flag == "hf4p"@
                || flag == "fp4"@,
            Format::Mfp4 => flag == "mfp4"@ || flag == "mfp4g32"@ || flag == "mf4p"@,
            Format::Q4 => flag != "q8f16"@ && flag != "q8"@ && flag != "q8-mixed"@
                && flag != "mixed"@ && flag != "q8-fast"@ && flag != "fast"@ && flag != "q8hfq"@
                && flag != "q4k"@ && flag != "q4k-q8embed"@ && flag != "mq8"@
                && flag != "mq8g256"@ && flag != "mq4"@ && flag != "mq4g256"@ && flag != "magnum"@
                && flag != "hfq4g256"@ && flag != "hfq4"@ && flag != "hf4"@ && flag != "hfq3g256"@
                && flag != "hfq3g128"@ && flag != "hfq3"@ && flag != "hf3"@ && flag != "hfq2g256"@
                && flag != "hfq2g128"@ && flag != "hfq2"@ && flag != "hf2"@
                && flag != "hfq-mixed"@ && flag != "mq6"@ && flag != "mq6g256"@
                && flag != "mq4-mq6exp"@ && flag != "mq4-mq6experts"@
                && flag != "mq4-mq2lloydexp"@ && flag != "mq4-mq2lloydexperts"@
                && flag != "mq4-mq2lloyd-exp"@ && flag != "mq4-mq2lloyd-native"@
                && flag != "mq4-mq2lloydexp-native"@ && flag != "mq4-mq2lloyd-routed"@
                && flag != "mq4-mq2lloyd-kmap"@ && flag != "mq4-mq2lloyd-respectkmap"@
                && flag != "mq4-mq2lloyd-kmap-promote"@ && flag != "mq4-mq2lloyd-imatrix"@
                && flag != "mq4-mq2lloyd-kmap-imatrix"@ && flag != "mq4-mq2lloyd-imatrix-kmap"@
                && flag != "mq4-mq3lloyd-kmap"@ && flag != "mq4-mq3lloyd-routed"@
                && flag != "mq4-mq3lloyd-exp"@ && flag != "mq4-mqlloyd-tiered"@
                && flag != "mq4-mqlloyd-tiered-imatrix"@ && flag != "mqlloyd-tiered"@
                && flag != "mq4-mqlloyd-antirez"@ && flag != "mq4-mqlloyd-asym"@
                && flag != "antirez-mq"@ && flag != "mq4-mqlloyd-antirez-gptq"@
                && flag != "mq4-mqlloyd-asym-gptq"@ && flag != "antirez-mq-gptq"@
                && flag != "mq4-mq2lloyd-gptq-all"@ && flag != "mq4-mq2lloyd-gptq"@
                && flag != "all-mq2-gptq"@ && flag != "mq3"@ && flag != "mq3g256"@
                && flag != "mq2"@ && flag != "mq2g256"@ && flag != "mq2-lloyd"@
                && flag != "mq2g256-lloyd"@ && flag != "mq2lloyd"@ && flag != "mq3-lloyd"@
                && flag != "mq3g256-lloyd"@ && flag != "mq3lloyd"@ && flag != "hfq6"@
                && flag != "hfq6g256"@ && flag != "hf6"@ && flag != "hfp4"@ && flag != "hfp4g32"@
                && flag != "hf4p"@ && flag != "fp4"@ && flag != "mfp4"@ && flag != "mfp4g32"@
                && flag != "mf4p"@,
        },
{
}

/// Each format for GGUF files is selected by its own flags and no others; any other
/// flag selects none.
pub proof fn law_gguf_formats_have_flags(flag: Seq<char>)
    ensures
        match gguf_format_of(flag) {
            Some(GgufFormat::Hfq4) => flag == "hfq4"@ || flag == "hfq4g256"@ || flag == "hf4"@,
            Some(GgufFormat::Hfq6) => flag == "hfq6"@ || flag == "hfq6g256"@ || flag == "hf6"@,
            Some(GgufFormat::Mq4) => flag == "mq4"@ || flag == "mq4g256"@ || flag == "magnum"@,
            Some(GgufFormat::Mq6) => flag == "mq6"@ || flag == "mq6g256"@,
            Some(GgufFormat::Mq3) => flag == "mq3"@ || flag == "mq3g256"@,
            Some(GgufFormat::Mq2) => flag == "mq2"@ || flag == "mq2g256"@,
            Some(GgufFormat::Mq2Lloyd) => flag == "mq2-lloyd"@ || flag == "mq2g256-lloyd"@
                || flag == "mq2lloyd"@,
            Some(GgufFormat::Mq3Lloyd) => flag == "mq3-lloyd"@ || flag == "mq3g256-lloyd"@
                || flag == "mq3lloyd"@,
            Some(GgufFormat::Hfq1) => flag == "hfq1"@ || flag == "hfq1g128"@ || flag == "bonsai"@,
            Some(GgufFormat::Hfp4) => flag == "hfp4"@ || flag == "hfp4g32"@ || flag == "hf4p"@
                || flag == "fp4"@,
            Some(GgufFormat::Mfp4) => flag == "mfp4"@ || flag == "mfp4g32"@ || flag == "mf4p"@,
            None => flag != "hfq4"@ && flag != "hfq4g256"@ && flag != "hf4"@ && flag != "hfq6"@
                && flag != "hfq6g256"@ && flag != "hf6"@ && flag != "mq4"@ && flag != "mq4g256"@
                && flag != "magnum"@ && flag != "mq6"@ && flag != "mq6g256"@ && flag != "mq3"@
                && flag != "mq3g256"@ && flag != "mq2"@ && flag != "mq2g256"@
                && flag != "mq2-lloyd"@ && flag != "mq2g256-lloyd"@ && flag != "mq2lloyd"@
                && flag != "mq3-lloyd"@ && flag != "mq3g256-lloyd"@ && flag != "mq3lloyd"@
                && flag != "hfq1"@ && flag != "hfq1g128"@ && flag != "bonsai"@ && flag != "hfp4"@
                && flag != "hfp4g32"@ && flag != "hf4p"@ && flag != "fp4"@ && flag != "mfp4"@
                && flag != "mfp4g32"@ && flag != "mf4p"@,
        },
{
}

/// Which formats are variants of rotated four-bit: the plain one and every one that
/// treats routed experts in its own way.
pub proof fn law_mq4_family(f: Format)
    ensures
        is_mq4_family(f) <==> (f == Format::Mq4 || f == Format::Mq4Mq6Experts || f
            == Format::Mq2LloydProbe || f == Format::Mq2LloydNative || f == Format::Mq2LloydKmap
            || f == Format::Mq2LloydImatrix || f == Format::Mq3LloydKmap || f == Format::Tiered || f
            == Format::Asymmetric || f == Format::AsymmetricGptq || f == Format::Mq2Gptq),
{
}

/// When a format is refused, and why: the formats that weigh by importance need an
/// importance matrix before all else; then those that mix in three-bit codebooks
/// need consent to them, two-bit needs consent, and last the formats with two-bit
/// codebooks.
pub proof fn law_refusals(f: Format, c: Consent)
    ensures
        ({
            let weighs = f == Format::AsymmetricGptq || f == Format::Mq2Gptq || f
                == Format::Asymmetric || f == Format::Tiered || f == Format::Mq2LloydImatrix;
            let mixes = f == Format::Mq3LloydKmap || f == Format::AsymmetricGptq || f
                == Format::Asymmetric || f == Format::Tiered;
            let two_bit = f == Format::Mq2Lloyd || f == Format::Mq2LloydProbe || f
                == Format::Mq2LloydNative || f == Format::Mq2LloydKmap || f
                == Format::Mq2LloydImatrix || f == Format::Mq2Gptq || mixes;
            let no_matrix = weighs && !c.imatrix;
            let no_mix = mixes && !c.mq3_lloyd;
            &&& refusal_of(f, c) == Some(Refusal::NeedsImatrix) <==> no_matrix
            &&& refusal_of(f, c) == Some(Refusal::NeedsMq3Lloyd) <==> no_mix && !no_matrix
            &&& refusal_of(f, c) == Some(Refusal::Mq2Reserved) <==> f == Format::Mq2 && !c.mq2
            &&& refusal_of(f, c) == Some(Refusal::Mq3LloydResearch) <==> f == Format::Mq3Lloyd
                && !c.mq3_lloyd
            &&& refusal_of(f, c) == Some(Refusal::Mq2LloydResearch) <==> two_bit && !c.mq2_lloyd
                && !no_matrix && !no_mix
        }),
{
}

/// The formats that rotate need the sign tables, the others do not.
pub proof fn law_rotated_formats(f: GgufFormat)
    ensures
        !is_rotated(f) <==> (f == GgufFormat::Hfq4 || f == GgufFormat::Hfq6 || f == GgufFormat::Hfq1
            || f == GgufFormat::Hfp4),
{
}

/// The name under which each format for GGUF files is reported.
pub proof fn law_gguf_format_labels()
    ensures
        label_of(GgufFormat::Hfq4) == "HFQ4G256"@,
        label_of(GgufFormat::Hfq6) == "HFQ6G256"@,
        label_of(GgufFormat::Mq4) == "MQ4G256"@,
        label_of(GgufFormat::Mq6) == "MQ6G256"@,
        label_of(GgufFormat::Mq3) == "MQ3G256"@,
        label_of(GgufFormat::Mq2) == "MQ2G256"@,
        label_of(GgufFormat::Mq2Lloyd) == "MQ2G256Lloyd"@,
        label_of(GgufFormat::Mq3Lloyd) == "MQ3G256Lloyd"@,
        label_of(GgufFormat::Hfq1) == "HFQ1G128"@,
        label_of(GgufFormat::Hfp4) == "HFP4G32"@,
        label_of(GgufFormat::Mfp4) == "MFP4G32"@,
{
}

/// Four fifths of the cores are used, and at least one.
pub proof fn law_default_threads(cores: int)
    requires
        cores >= 0,
    ensures
        default_thread_count(cores) >= 1,
        cores >= 2 ==> 10 * default_thread_count(cores) <= 8 * cores < 10 * default_thread_count(
            cores,
        ) + 10,
        cores < 2 ==> default_thread_count(cores) == 1,
{
}

/// The names of the promotion modes.
pub proof fn law_modes_have_names(value: Seq<char>)
    ensures
        match mode_of(value) {
            Some(m) => (m == 0 && (value == "full"@ || value == "0"@)) || (m == 1 && (value
                == "alternating"@ || value == "alt"@ || value == "1"@)) || (m == 2 && (value
                == "typed"@ || value == "2"@)),
            None => value != "full"@ && value != "0"@ && value != "alternating"@ && value != "alt"@
                && value != "1"@ && value != "typed"@ && value != "2"@,
        },
{
}

/// The numbers of the architectures, for safetensors models and for GGUF files.
pub proof fn law_architectures_have_numbers(name: Seq<char>)
    ensures
        match arch_of(name) {
            Some(n) => (n == 0 && name == "llama"@) || (n == 1 && (name == "qwen3"@ || name
                == "qwen2"@)) || (n == 5 && (name == "qwen3_5"@ || name == "qwen3_5_text"@)) || (n
                == 6 && (name == "qwen3_5_moe"@ || name == "qwen3_5_moe_text"@)) || (n == 7 && name
                == "deepseek_v4"@),
            None => name != "llama"@ && name != "qwen3"@ && name != "qwen2"@ && name != "qwen3_5"@
                && name != "qwen3_5_text"@ && name != "qwen3_5_moe"@ && name != "qwen3_5_moe_text"@
                && name != "deepseek_v4"@,
        },
        match gguf_arch_of(name) {
            Some(n) => (n == 0 && name == "llama"@) || (n == 1 && (name == "qwen3"@ || name
                == "qwen2"@)) || (n == 6 && name == "qwen3moe"@),
            None => name != "llama"@ && name != "qwen3"@ && name != "qwen2"@ && name != "qwen3moe"@,
        },
{
}

/// A number is read from a text where there is one; without a text there is none.
pub proof fn law_numbers_are_read_from_text(text: Option<&str>)
    ensures
        text is None ==> number_in(text) is None,
        text is Some ==> number_in(text) == read_usize(text->0@),
{
}

} // verus!
