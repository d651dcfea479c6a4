//! Errors in words.
use vstd::prelude::*;
use vstd::string::*;

use super::error::PcuSpirvError;
use super::types::{PcuSpirvCapability, PcuSpirvVersion};
use crate::pcu::ir::{PcuDispatchOpCaps, PcuScalarType, PcuValueType};

verus! {

/// A digit.
pub open spec fn digit_text(digit: nat) -> Seq<char> {
    if digit == 0 {
        "0"@
    } else if digit == 1 {
        "1"@
    } else if digit == 2 {
        "2"@
    } else if digit == 3 {
        "3"@
    } else if digit == 4 {
        "4"@
    } else if digit == 5 {
        "5"@
    } else if digit == 6 {
        "6"@
    } else if digit == 7 {
        "7"@
    } else if digit == 8 {
        "8"@
    } else if digit == 9 {
        "9"@
    } else if digit == 10 {
        "a"@
    } else if digit == 11 {
        "b"@
    } else if digit == 12 {
        "c"@
    } else if digit == 13 {
        "d"@
    } else if digit == 14 {
        "e"@
    } else {
        "f"@
    }
}

/// Dividing makes a number smaller.
pub proof fn lemma_quotient_falls(value: nat, base: nat)
    requires
        2 <= base <= value,
    ensures
        value / base < value,
{
    assert(value / base < value) by (nonlinear_arith)
        requires
            2 <= base <= value,
    ;
}

/// A number without leading zeros.
pub open spec fn number_text(value: nat, base: nat) -> Seq<char>
    decreases value,
{
    if base < 2 || value < base {
        digit_text(value)
    } else {
        proof {
            lemma_quotient_falls(value, base);
        }
        number_text(value / base, base) + digit_text(value % base)
    }
}

/// The last `width` hexadecimal digits of a number.
pub open spec fn padded_text(value: nat, width: nat) -> Seq<char>
    decreases width,
{
    if width == 0 {
        Seq::empty()
    } else {
        padded_text(value / 16, (width - 1) as nat) + digit_text(value % 16)
    }
}

/// A scalar type by its name.
pub open spec fn scalar_text(scalar: PcuScalarType) -> Seq<char> {
    match scalar {
        PcuScalarType::Bool => "Bool"@,
        PcuScalarType::I4 => "I4"@,
        PcuScalarType::U4 => "U4"@,
        PcuScalarType::I8 => "I8"@,
        PcuScalarType::U8 => "U8"@,
        PcuScalarType::I16 => "I16"@,
        PcuScalarType::U16 => "U16"@,
        PcuScalarType::I32 => "I32"@,
        PcuScalarType::U32 => "U32"@,
        PcuScalarType::I64 => "I64"@,
        PcuScalarType::U64 => "U64"@,
        PcuScalarType::F16 => "F16"@,
        PcuScalarType::BF16 => "BF16"@,
        PcuScalarType::F32 => "F32"@,
        PcuScalarType::F64 => "F64"@,
    }
}

/// A value type as it is written in source.
pub open spec fn type_text(value_type: PcuValueType) -> Seq<char> {
    match value_type {
        PcuValueType::Scalar(scalar) => "Scalar("@ + scalar_text(scalar) + ")"@,
        PcuValueType::Vector { scalar, lanes } => "Vector { scalar: "@ + scalar_text(scalar)
            + ", lanes: "@ + number_text(lanes as nat, 10) + " }"@,
        PcuValueType::Matrix { scalar, rows, cols } => "Matrix { scalar: "@ + scalar_text(scalar)
            + ", rows: "@ + number_text(rows as nat, 10) + ", cols: "@ + number_text(
            cols as nat,
            10,
        ) + " }"@,
    }
}

/// A capability by its name.
pub open spec fn capability_text(capability: PcuSpirvCapability) -> Seq<char> {
    match capability {
        PcuSpirvCapability::Shader => "Shader"@,
        PcuSpirvCapability::Matrix => "Matrix"@,
        PcuSpirvCapability::Image => "Image"@,
        PcuSpirvCapability::StorageImage => "StorageImage"@,
        PcuSpirvCapability::CoordinateDerivative => "CoordinateDerivative"@,
        PcuSpirvCapability::RayTracing => "RayTracing"@,
        PcuSpirvCapability::RayQuery => "RayQuery"@,
    }
}

fn digit_name(digit: u64) -> (name: &'static str)
    requires
        digit < 16,
    ensures
        name@ == digit_text(digit as nat),
{
    if digit == 0 {
        "0"
    } else if digit == 1 {
        "1"
    } else if digit == 2 {
        "2"
    } else if digit == 3 {
        "3"
    } else if digit == 4 {
        "4"
    } else if digit == 5 {
        "5"
    } else if digit == 6 {
        "6"
    } else if digit == 7 {
        "7"
    } else if digit == 8 {
        "8"
    } else if digit == 9 {
        "9"
    } else if digit == 10 {
        "a"
    } else if digit == 11 {
        "b"
    } else if digit == 12 {
        "c"
    } else if digit == 13 {
        "d"
    } else if digit == 14 {
        "e"
    } else {
        "f"
    }
}

fn append_number(text: &mut String, value: u64, base: u64)
    requires
        2 <= base <= 16,
    ensures
        final(text)@ == old(text)@ + number_text(value as nat, base as nat),
    decreases value,
{
    if value < base {
        text.append(digit_name(value));
    } else {
        proof {
            lemma_quotient_falls(value as nat, base as nat);
        }
        append_number(text, value / base, base);
        text.append(digit_name(value % base));
        assert(text@ =~= old(text)@ + number_text(value as nat, base as nat));
    }
}

fn append_padded(text: &mut String, value: u64, width: u64)
    ensures
        final(text)@ == old(text)@ + padded_text(value as nat, width as nat),
    decreases width,
{
    if width > 0 {
        append_padded(text, value / 16, width - 1);
        text.append(digit_name(value % 16));
    }
    assert(text@ =~= old(text)@ + padded_text(value as nat, width as nat));
}

fn scalar_name(scalar: PcuScalarType) -> (name: &'static str)
    ensures
        name@ == scalar_text(scalar),
{
    match scalar {
        PcuScalarType::Bool => "Bool",
        PcuScalarType::I4 => "I4",
        PcuScalarType::U4 => "U4",
        PcuScalarType::I8 => "I8",
        PcuScalarType::U8 => "U8",
        PcuScalarType::I16 => "I16",
        PcuScalarType::U16 => "U16",
        PcuScalarType::I32 => "I32",
        PcuScalarType::U32 => "U32",
        PcuScalarType::I64 => "I64",
        PcuScalarType::U64 => "U64",
        PcuScalarType::F16 => "F16",
        PcuScalarType::BF16 => "BF16",
        PcuScalarType::F32 => "F32",
        PcuScalarType::F64 => "F64",
    }
}

fn append_type(text: &mut String, value_type: PcuValueType)
    ensures
        final(text)@ == old(text)@ + type_text(value_type),
{
    match value_type {
        PcuValueType::Scalar(scalar) => {
            text.append("Scalar(");
            text.append(scalar_name(scalar));
            text.append(")");
        },
        PcuValueType::Vector { scalar, lanes } => {
            text.append("Vector { scalar: ");
            text.append(scalar_name(scalar));
            text.append(", lanes: ");
            append_number(text, lanes as u64, 10);
            text.append(" }");
        },
        PcuValueType::Matrix { scalar, rows, cols } => {
            text.append("Matrix { scalar: ");
            text.append(scalar_name(scalar));
            text.append(", rows: ");
            append_number(text, rows as u64, 10);
            text.append(", cols: ");
            append_number(text, cols as u64, 10);
            text.append(" }");
        },
    }
    assert(text@ =~= old(text)@ + type_text(value_type));
}

fn capability_name(capability: PcuSpirvCapability) -> (name: &'static str)
    ensures
        name@ == capability_text(capability),
{
    match capability {
        PcuSpirvCapability::Shader => "Shader",
        PcuSpirvCapability::Matrix => "Matrix",
        PcuSpirvCapability::Image => "Image",
        PcuSpirvCapability::StorageImage => "StorageImage",
        PcuSpirvCapability::CoordinateDerivative => "CoordinateDerivative",
        PcuSpirvCapability::RayTracing => "RayTracing",
        PcuSpirvCapability::RayQuery => "RayQuery",
    }
}

impl PcuSpirvError {
    /// The error in words.
    pub open spec fn text(self) -> Seq<char> {
        match self {
            PcuSpirvError::UnsupportedInstruction(PcuDispatchOpCaps(bits)) => {
                "unsupported SPIR-V lowering instruction caps 0x"@ + number_text(bits as nat, 16)
            },
            PcuSpirvError::UnsupportedValueType(value_type) => {
                "unsupported SPIR-V lowering value type "@ + type_text(value_type)
            },
            PcuSpirvError::UnsupportedCapability(capability) => {
                "SPIR-V lowering capability "@ + capability_text(capability) + " is not enabled"@
            },
            PcuSpirvError::UnsupportedVersion(PcuSpirvVersion(number)) => {
                "unsupported SPIR-V version 0x"@ + padded_text(number as nat, 8)
            },
            PcuSpirvError::InvalidKernelSignature => "invalid PCU kernel signature for SPIR-V"@,
            PcuSpirvError::InvalidBinding => "invalid PCU binding for SPIR-V"@,
            PcuSpirvError::SinkFull => "SPIR-V output sink is full"@,
            PcuSpirvError::IdSpaceExhausted => "SPIR-V id space exhausted"@,
        }
    }

    /// Says what went wrong.
    pub fn message(&self) -> (message: String)
        ensures
            message@ == self.text(),
    {
        match *self {
            PcuSpirvError::UnsupportedInstruction(flags) => {
                let mut text: String = String::from_str(
                    "unsupported SPIR-V lowering instruction caps 0x",
                );
                append_number(&mut text, flags.0, 16);
                text
            },
            PcuSpirvError::UnsupportedValueType(value_type) => {
                let mut text: String = String::from_str("unsupported SPIR-V lowering value type ");
                append_type(&mut text, value_type);
                text
            },
            PcuSpirvError::UnsupportedCapability(capability) => {
                let mut text: String = String::from_str("SPIR-V lowering capability ");
                text.append(capability_name(capability));
                text.append(" is not enabled");
                text
            },
            PcuSpirvError::UnsupportedVersion(version) => {
                let mut text: String = String::from_str("unsupported SPIR-V version 0x");
                append_padded(&mut text, version.0 as u64, 8);
                text
            },
            PcuSpirvError::InvalidKernelSignature => {
                String::from_str("invalid PCU kernel signature for SPIR-V")
            },
            PcuSpirvError::InvalidBinding => String::from_str("invalid PCU binding for SPIR-V"),
            PcuSpirvError::SinkFull => String::from_str("SPIR-V output sink is full"),
            PcuSpirvError::IdSpaceExhausted => String::from_str("SPIR-V id space exhausted"),
        }
    }
}

} // verus!
