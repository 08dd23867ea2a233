//! Blending configuration for composited tile layers.
//!
//! The factors and functions mirror the blending enumerants of the WebGL
//! specification; [`BlendFactor::gl`] and [`BlendFunc::gl`] return the fixed
//! enumerant values the graphics API defines for them.

use vstd::prelude::*;

verus! {

/// Blend factor of a source or destination term.
#[derive(Clone, Copy, Debug, PartialEq, Eq, Structural)]
pub enum BlendFactor {
    Zero,
    One,
    SrcColor,
    OneMinusSrcColor,
    DstColor,
    OneMinusDstColor,
    SrcAlpha,
    OneMinusSrcAlpha,
    DstAlpha,
    OneMinusDstAlpha,
    ConstantColor,
    OneMinusConstantColor,
    ConstantAlpha,
    OneMinusConstantAlpha,
}

/// The graphics-API enumerant for a blend factor.
pub open spec fn spec_factor_gl(f: BlendFactor) -> u32 {
    match f {
        BlendFactor::Zero => 0,
        BlendFactor::One => 1,
        BlendFactor::SrcColor => 0x0300,
        BlendFactor::OneMinusSrcColor => 0x0301,
        BlendFactor::SrcAlpha => 0x0302,
        BlendFactor::OneMinusSrcAlpha => 0x0303,
        BlendFactor::DstAlpha => 0x0304,
        BlendFactor::OneMinusDstAlpha => 0x0305,
        BlendFactor::DstColor => 0x0306,
        BlendFactor::OneMinusDstColor => 0x0307,
        BlendFactor::ConstantColor => 0x8001,
        BlendFactor::OneMinusConstantColor => 0x8002,
        BlendFactor::ConstantAlpha => 0x8003,
        BlendFactor::OneMinusConstantAlpha => 0x8004,
    }
}

impl BlendFactor {
    /// Maps the blend factor to its graphics-API enumerant.
    pub fn gl(&self) -> (r: u32)
        ensures
            r == spec_factor_gl(*self),
    {
        match self {
            BlendFactor::Zero => 0,
            BlendFactor::One => 1,
            BlendFactor::SrcColor => 0x0300,
            BlendFactor::OneMinusSrcColor => 0x0301,
            BlendFactor::SrcAlpha => 0x0302,
            BlendFactor::OneMinusSrcAlpha => 0x0303,
            BlendFactor::DstAlpha => 0x0304,
            BlendFactor::OneMinusDstAlpha => 0x0305,
            BlendFactor::DstColor => 0x0306,
            BlendFactor::OneMinusDstColor => 0x0307,
            BlendFactor::ConstantColor => 0x8001,
            BlendFactor::OneMinusConstantColor => 0x8002,
            BlendFactor::ConstantAlpha => 0x8003,
            BlendFactor::OneMinusConstantAlpha => 0x8004,
        }
    }

    /// The factor's name, for diagnostics.
    pub fn label(&self) -> (r: &'static str)
    {
        match self {
            BlendFactor::Zero => "Zero",
            BlendFactor::One => "One",
            BlendFactor::SrcColor => "SrcColor",
            BlendFactor::OneMinusSrcColor => "OneMinusSrcColor",
            BlendFactor::SrcAlpha => "SrcAlpha",
            BlendFactor::OneMinusSrcAlpha => "OneMinusSrcAlpha",
            BlendFactor::DstAlpha => "DstAlpha",
            BlendFactor::OneMinusDstAlpha => "OneMinusDstAlpha",
            BlendFactor::DstColor => "DstColor",
            BlendFactor::OneMinusDstColor => "OneMinusDstColor",
            BlendFactor::ConstantColor => "ConstantColor",
            BlendFactor::OneMinusConstantColor => "OneMinusConstantColor",
            BlendFactor::ConstantAlpha => "ConstantAlpha",
            BlendFactor::OneMinusConstantAlpha => "OneMinusConstantAlpha",
        }
    }
}

/// Blend equation combining the two weighted terms.
#[derive(Clone, Copy, Debug, PartialEq, Eq, Structural)]
pub enum BlendFunc {
    FuncAdd,
    FuncSubstract,
    FuncReverseSubstract,
    Min,
    Max,
}

/// The graphics-API enumerant for a blend equation.
pub open spec fn spec_func_gl(f: BlendFunc) -> u32 {
    match f {
        BlendFunc::FuncAdd => 0x8006,
        BlendFunc::FuncSubstract => 0x800A,
        BlendFunc::FuncReverseSubstract => 0x800B,
        BlendFunc::Min => 0x8007,
        BlendFunc::Max => 0x8008,
    }
}

impl BlendFunc {
    /// Maps the blend equation to its graphics-API enumerant.
    pub fn gl(&self) -> (r: u32)
        ensures
            r == spec_func_gl(*self),
    {
        match self {
            BlendFunc::FuncAdd => 0x8006,
            BlendFunc::FuncSubstract => 0x800A,
            BlendFunc::FuncReverseSubstract => 0x800B,
            BlendFunc::Min => 0x8007,
            BlendFunc::Max => 0x8008,
        }
    }

    /// The equation's name, for diagnostics.
    pub fn label(&self) -> (r: &'static str)
    {
        match self {
            BlendFunc::FuncAdd => "Add",
            BlendFunc::FuncSubstract => "Subtract",
            BlendFunc::FuncReverseSubstract => "Reverse Subtract",
            BlendFunc::Min => "Min",
            BlendFunc::Max => "Max",
        }
    }
}

/// A layer's blending configuration.
#[derive(Clone, Copy, Debug, PartialEq, Eq, Structural)]
pub struct BlendCfg {
    pub src_color_factor: BlendFactor,
    pub dst_color_factor: BlendFactor,
    pub func: BlendFunc,
}

impl Default for BlendCfg {
    /// Source weighted by its alpha, destination by one minus the constant
    /// alpha, added.
    fn default() -> (r: Self)
        ensures
            r.src_color_factor == BlendFactor::SrcAlpha,
            r.dst_color_factor == BlendFactor::OneMinusConstantAlpha,
            r.func == BlendFunc::FuncAdd,
    {
        BlendCfg {
            src_color_factor: BlendFactor::SrcAlpha,
            dst_color_factor: BlendFactor::OneMinusConstantAlpha,
            func: BlendFunc::FuncAdd,
        }
    }
}

} // verus!
