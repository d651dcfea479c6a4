//! Lowering options and the description of an emitted module.
use vstd::prelude::*;

verus! {

/// Capability categories that lowering may emit.
#[derive(Debug, Clone, Copy, PartialEq, Eq, Hash, Structural)]
pub enum PcuSpirvCapability {
    Shader,
    Matrix,
    Image,
    StorageImage,
    CoordinateDerivative,
    RayTracing,
    RayQuery,
}

/// The bit of each capability.
pub const SHADER_BIT: u32 = 1;

pub const MATRIX_BIT: u32 = 2;

pub const IMAGE_BIT: u32 = 4;

pub const STORAGE_IMAGE_BIT: u32 = 8;

pub const COORDINATE_DERIVATIVE_BIT: u32 = 16;

pub const RAY_TRACING_BIT: u32 = 32;

pub const RAY_QUERY_BIT: u32 = 64;

/// The set of capabilities allowed for one lowering run, one bit for each.
#[derive(Debug, Clone, Copy, PartialEq, Eq, Hash, Structural)]
pub struct PcuSpirvCapabilityCaps(pub u32);

impl PcuSpirvCapabilityCaps {
    /// The set of one capability.
    pub open spec fn only(capability: PcuSpirvCapability) -> PcuSpirvCapabilityCaps {
        match capability {
            PcuSpirvCapability::Shader => PcuSpirvCapabilityCaps(SHADER_BIT),
            PcuSpirvCapability::Matrix => PcuSpirvCapabilityCaps(MATRIX_BIT),
            PcuSpirvCapability::Image => PcuSpirvCapabilityCaps(IMAGE_BIT),
            PcuSpirvCapability::StorageImage => PcuSpirvCapabilityCaps(STORAGE_IMAGE_BIT),
            PcuSpirvCapability::CoordinateDerivative => PcuSpirvCapabilityCaps(COORDINATE_DERIVATIVE_BIT),
            PcuSpirvCapability::RayTracing => PcuSpirvCapabilityCaps(RAY_TRACING_BIT),
            PcuSpirvCapability::RayQuery => PcuSpirvCapabilityCaps(RAY_QUERY_BIT),
        }
    }

    /// Every capability of `other` is one of `self`.
    pub open spec fn includes(self, other: PcuSpirvCapabilityCaps) -> bool {
        self.0 & other.0 == other.0
    }

    /// `capability` is in the set.
    pub open spec fn allows(self, capability: PcuSpirvCapability) -> bool {
        self.includes(PcuSpirvCapabilityCaps::only(capability))
    }

    #[must_use]
    pub fn empty() -> (caps: PcuSpirvCapabilityCaps)
        ensures
            caps == PcuSpirvCapabilityCaps(0),
    {
        PcuSpirvCapabilityCaps(0)
    }

    #[must_use]
    pub fn shader() -> (caps: PcuSpirvCapabilityCaps)
        ensures
            caps == PcuSpirvCapabilityCaps::only(PcuSpirvCapability::Shader),
    {
        PcuSpirvCapabilityCaps(SHADER_BIT)
    }

    #[must_use]
    pub fn bits(self) -> (bits: u32)
        ensures
            bits == self.0,
    {
        self.0
    }

    #[must_use]
    pub fn contains(self, other: PcuSpirvCapabilityCaps) -> (contained: bool)
        ensures
            contained == self.includes(other),
    {
        (self.0 & other.0) == other.0
    }

    #[must_use]
    pub fn union(self, other: PcuSpirvCapabilityCaps) -> (caps: PcuSpirvCapabilityCaps)
        ensures
            caps == PcuSpirvCapabilityCaps(self.0 | other.0),
    {
        PcuSpirvCapabilityCaps(self.0 | other.0)
    }

    #[must_use]
    pub fn for_capability(capability: PcuSpirvCapability) -> (caps: PcuSpirvCapabilityCaps)
        ensures
            caps == PcuSpirvCapabilityCaps::only(capability),
    {
        match capability {
            PcuSpirvCapability::Shader => PcuSpirvCapabilityCaps(SHADER_BIT),
            PcuSpirvCapability::Matrix => PcuSpirvCapabilityCaps(MATRIX_BIT),
            PcuSpirvCapability::Image => PcuSpirvCapabilityCaps(IMAGE_BIT),
            PcuSpirvCapability::StorageImage => PcuSpirvCapabilityCaps(STORAGE_IMAGE_BIT),
            PcuSpirvCapability::CoordinateDerivative => PcuSpirvCapabilityCaps(COORDINATE_DERIVATIVE_BIT),
            PcuSpirvCapability::RayTracing => PcuSpirvCapabilityCaps(RAY_TRACING_BIT),
            PcuSpirvCapability::RayQuery => PcuSpirvCapabilityCaps(RAY_QUERY_BIT),
        }
    }

    #[must_use]
    pub fn supports(self, capability: PcuSpirvCapability) -> (supported: bool)
        ensures
            supported == self.allows(capability),
    {
        self.contains(PcuSpirvCapabilityCaps::for_capability(capability))
    }
}

impl core::ops::BitOr for PcuSpirvCapabilityCaps {
    type Output = PcuSpirvCapabilityCaps;

    fn bitor(self, rhs: PcuSpirvCapabilityCaps) -> (caps: PcuSpirvCapabilityCaps) {
        self.union(rhs)
    }
}

impl vstd::std_specs::ops::BitOrSpecImpl for PcuSpirvCapabilityCaps {
    open spec fn obeys_bitor_spec() -> bool {
        true
    }

    open spec fn bitor_req(self, rhs: PcuSpirvCapabilityCaps) -> bool {
        true
    }

    open spec fn bitor_spec(self, rhs: PcuSpirvCapabilityCaps) -> PcuSpirvCapabilityCaps {
        PcuSpirvCapabilityCaps(self.0 | rhs.0)
    }
}

impl core::ops::BitAnd for PcuSpirvCapabilityCaps {
    type Output = PcuSpirvCapabilityCaps;

    fn bitand(self, rhs: PcuSpirvCapabilityCaps) -> (caps: PcuSpirvCapabilityCaps) {
        PcuSpirvCapabilityCaps(self.0 & rhs.0)
    }
}

impl vstd::std_specs::ops::BitAndSpecImpl for PcuSpirvCapabilityCaps {
    open spec fn obeys_bitand_spec() -> bool {
        true
    }

    open spec fn bitand_req(self, rhs: PcuSpirvCapabilityCaps) -> bool {
        true
    }

    open spec fn bitand_spec(self, rhs: PcuSpirvCapabilityCaps) -> PcuSpirvCapabilityCaps {
        PcuSpirvCapabilityCaps(self.0 & rhs.0)
    }
}

impl Default for PcuSpirvCapabilityCaps {
    fn default() -> (caps: PcuSpirvCapabilityCaps)
        ensures
            caps == PcuSpirvCapabilityCaps(0),
    {
        PcuSpirvCapabilityCaps::empty()
    }
}

/// A union allows exactly what one of its parts allows.
pub proof fn law_union_allows(
    left: PcuSpirvCapabilityCaps,
    right: PcuSpirvCapabilityCaps,
    capability: PcuSpirvCapability,
)
    ensures
        PcuSpirvCapabilityCaps(left.0 | right.0).allows(capability) <==> left.allows(capability)
            || right.allows(capability),
{
    let (a, b) = (left.0, right.0);
    assert((a | b) & 1 == 1 <==> a & 1 == 1 || b & 1 == 1) by (bit_vector);
    assert((a | b) & 2 == 2 <==> a & 2 == 2 || b & 2 == 2) by (bit_vector);
    assert((a | b) & 4 == 4 <==> a & 4 == 4 || b & 4 == 4) by (bit_vector);
    assert((a | b) & 8 == 8 <==> a & 8 == 8 || b & 8 == 8) by (bit_vector);
    assert((a | b) & 16 == 16 <==> a & 16 == 16 || b & 16 == 16) by (bit_vector);
    assert((a | b) & 32 == 32 <==> a & 32 == 32 || b & 32 == 32) by (bit_vector);
    assert((a | b) & 64 == 64 <==> a & 64 == 64 || b & 64 == 64) by (bit_vector);
}

/// The set of one capability allows that capability and no other.
pub proof fn law_capabilities_are_separate(one: PcuSpirvCapability, other: PcuSpirvCapability)
    ensures
        PcuSpirvCapabilityCaps::only(one).allows(other) <==> one == other,
{
    let a = PcuSpirvCapabilityCaps::only(one).0;
    let b = PcuSpirvCapabilityCaps::only(other).0;
    assert(a & b == b <==> a == b) by (bit_vector)
        requires
            a == 1 || a == 2 || a == 4 || a == 8 || a == 16 || a == 32 || a == 64,
            b == 1 || b == 2 || b == 4 || b == 8 || b == 16 || b == 32 || b == 64,
    ;
}

/// A version, encoded as in the module header.
#[derive(Debug, Clone, Copy, PartialEq, Eq, Hash, Structural)]
pub struct PcuSpirvVersion(pub u32);

/// The version that lowering emits unless another is asked for.
pub const V1_0: u32 = 0x0001_0000;

pub const V1_3: u32 = 0x0001_0300;

pub const V1_5: u32 = 0x0001_0500;

pub const V1_6: u32 = 0x0001_0600;

/// Options for one lowering run.
#[derive(Debug, Clone, Copy, PartialEq, Eq, Hash, Structural)]
pub struct PcuSpirvLoweringOptions {
    pub version: PcuSpirvVersion,
    pub generator: u32,
    pub capabilities: PcuSpirvCapabilityCaps,
}

impl PcuSpirvLoweringOptions {
    #[must_use]
    pub fn minimal_shader() -> (options: PcuSpirvLoweringOptions)
        ensures
            options == (PcuSpirvLoweringOptions {
                version: PcuSpirvVersion(V1_0),
                generator: 0,
                capabilities: PcuSpirvCapabilityCaps::only(PcuSpirvCapability::Shader),
            }),
    {
        PcuSpirvLoweringOptions {
            version: PcuSpirvVersion(V1_0),
            generator: 0,
            capabilities: PcuSpirvCapabilityCaps(SHADER_BIT),
        }
    }

    #[must_use]
    pub fn with_capabilities(self, capabilities: PcuSpirvCapabilityCaps) -> (options: PcuSpirvLoweringOptions)
        ensures
            options == (PcuSpirvLoweringOptions { capabilities, ..self }),
    {
        PcuSpirvLoweringOptions { capabilities, ..self }
    }

    #[must_use]
    pub fn with_version(self, version: PcuSpirvVersion) -> (options: PcuSpirvLoweringOptions)
        ensures
            options == (PcuSpirvLoweringOptions { version, ..self }),
    {
        PcuSpirvLoweringOptions { version, ..self }
    }

    #[must_use]
    pub fn with_generator(self, generator: u32) -> (options: PcuSpirvLoweringOptions)
        ensures
            options == (PcuSpirvLoweringOptions { generator, ..self }),
    {
        PcuSpirvLoweringOptions { generator, ..self }
    }
}

impl Default for PcuSpirvLoweringOptions {
    fn default() -> (options: PcuSpirvLoweringOptions)
        ensures
            options == (PcuSpirvLoweringOptions {
                version: PcuSpirvVersion(V1_0),
                generator: 0,
                capabilities: PcuSpirvCapabilityCaps::only(PcuSpirvCapability::Shader),
            }),
    {
        PcuSpirvLoweringOptions::minimal_shader()
    }
}

/// Summary of one emitted module.
#[derive(Debug, Clone, Copy, PartialEq, Eq, Hash, Structural)]
pub struct PcuSpirvModuleInfo {
    pub version: PcuSpirvVersion,
    pub bound: u32,
    pub word_count: usize,
    pub capabilities: PcuSpirvCapabilityCaps,
}

} // verus!
