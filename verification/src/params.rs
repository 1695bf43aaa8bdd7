//! The arguments of the server's tools, and what each one asks for.
//!
//! Floating-point values are carried as their IEEE-754 `binary32` bit patterns:
//! the library stores and hands them back, it never computes with them.
use vstd::prelude::*;

verus! {

/// The render width and height used when `load_puppet` is given none.
pub const DEFAULT_RENDER_SIZE: u32 = 800;

/// The bit pattern of the `f32` value `0.0`.
pub const ZERO_BITS: u32 = 0;

/// A parameter value: the bit patterns of its `x` and `y` components.
#[derive(Clone, Copy, Debug, PartialEq, Eq, Structural)]
pub struct ParamValue {
    pub x_bits: u32,
    pub y_bits: u32,
}

/// Arguments of `load_puppet`.
pub struct LoadPuppetParams {
    /// Path to the puppet file to load.
    pub path: String,
    /// Render width in pixels (default 800).
    pub width: Option<u32>,
    /// Render height in pixels (default 800).
    pub height: Option<u32>,
}

/// Arguments of `set_param`.
pub struct SetParamParams {
    /// Name of the parameter to set.
    pub name: String,
    /// Bit pattern of the `x` value.
    pub x_bits: u32,
    /// Bit pattern of the `y` value (only used by two-axis parameters).
    pub y_bits: Option<u32>,
}

/// Arguments of `render`.
pub struct RenderParams {
    /// Width in pixels; the current width is kept when not given.
    pub width: Option<u32>,
    /// Height in pixels; the current height is kept when not given.
    pub height: Option<u32>,
    /// File to save the PNG to; without it the PNG is returned inline, base64-encoded.
    pub output_path: Option<String>,
    /// Bit pattern of the physics time step in seconds (default `0.0`).
    pub dt_bits: Option<u32>,
}

/// A size given explicitly, or the default one.
pub open spec fn size_or_default(size: Option<u32>) -> u32 {
    match size {
        Some(s) => s,
        None => DEFAULT_RENDER_SIZE,
    }
}

impl LoadPuppetParams {
    /// The render size that a load with these arguments sets up.
    pub fn render_size(&self) -> (size: (u32, u32))
        ensures
            size.0 == size_or_default(self.width),
            size.1 == size_or_default(self.height),
            self.width matches Some(w) ==> size.0 == w,
            self.height matches Some(h) ==> size.1 == h,
            self.width is None ==> size.0 == DEFAULT_RENDER_SIZE,
            self.height is None ==> size.1 == DEFAULT_RENDER_SIZE,
    {
        (self.width.unwrap_or(DEFAULT_RENDER_SIZE), self.height.unwrap_or(DEFAULT_RENDER_SIZE))
    }
}

impl SetParamParams {
    /// The value these arguments ask for: `y` is `0.0` when omitted.
    pub open spec fn spec_value(&self) -> ParamValue {
        ParamValue {
            x_bits: self.x_bits,
            y_bits: match self.y_bits {
                Some(y) => y,
                None => ZERO_BITS,
            },
        }
    }

    /// The value these arguments ask for: `y` is `0.0` when omitted.
    pub fn value(&self) -> (v: ParamValue)
        ensures
            v == self.spec_value(),
            v.x_bits == self.x_bits,
            self.y_bits matches Some(y) ==> v.y_bits == y,
            self.y_bits is None ==> v.y_bits == ZERO_BITS,
    {
        ParamValue { x_bits: self.x_bits, y_bits: self.y_bits.unwrap_or(ZERO_BITS) }
    }
}

impl RenderParams {
    /// The render size these arguments ask for when the current one is
    /// `width` x `height`: `None` when they give no size, otherwise each size
    /// given replaces the current one and each size omitted keeps it.
    pub open spec fn spec_size_after(&self, width: u32, height: u32) -> Option<(u32, u32)> {
        if self.width is None && self.height is None {
            None
        } else {
            Some(
                (
                    match self.width {
                        Some(w) => w,
                        None => width,
                    },
                    match self.height {
                        Some(h) => h,
                        None => height,
                    },
                ),
            )
        }
    }

    /// The render size these arguments ask for when the current one is
    /// `width` x `height`: `None` when they give no size, otherwise each size
    /// given replaces the current one and each size omitted keeps it.
    pub fn size_after(&self, width: u32, height: u32) -> (size: Option<(u32, u32)>)
        ensures
            size == self.spec_size_after(width, height),
            self.width is None && self.height is None ==> size is None,
            self.width is Some || self.height is Some ==> size is Some,
            size matches Some((w, h)) ==> (self.width matches Some(a) ==> w == a) && (
            self.width is None ==> w == width),
            size matches Some((w, h)) ==> (self.height matches Some(b) ==> h == b) && (
            self.height is None ==> h == height),
    {
        if self.width.is_none() && self.height.is_none() {
            None
        } else {
            Some((self.width.unwrap_or(width), self.height.unwrap_or(height)))
        }
    }

    /// The physics time step asked for: `0.0` when omitted.
    pub fn dt_bits_or_zero(&self) -> (bits: u32)
        ensures
            bits == match self.dt_bits {
                Some(b) => b,
                None => ZERO_BITS,
            },
    {
        self.dt_bits.unwrap_or(ZERO_BITS)
    }
}

/// Law: a size given to `load_puppet` is used as it is; an omitted one is 800.
pub proof fn law_load_size_given_is_used(s: u32)
    ensures
        size_or_default(Some(s)) == s,
        size_or_default(None) == 800,
{
}

/// Law: the value `set_param` asks for has the `x` given, the `y` given when one
/// is given, and `y == 0.0` (bit pattern 0) when it is omitted.
pub proof fn law_param_value_is_the_value_given(p: SetParamParams)
    ensures
        p.spec_value().x_bits == p.x_bits,
        p.y_bits matches Some(y) ==> p.spec_value().y_bits == y,
        p.y_bits is None ==> p.spec_value().y_bits == 0,
{
}

/// Law: a render request that gives no size keeps the current size; otherwise
/// each size it gives replaces the current one, whatever the other one is, and a
/// size it omits stays as it was.
pub proof fn law_render_size_given_replaces_current(p: RenderParams, width: u32, height: u32)
    ensures
        p.width is None && p.height is None ==> p.spec_size_after(width, height) is None,
        p.width is Some || p.height is Some ==> p.spec_size_after(width, height) is Some,
        p.spec_size_after(width, height) matches Some((w, h)) ==> (p.width matches Some(a) ==> w
            == a) && (p.width is None ==> w == width) && (p.height matches Some(b) ==> h == b) && (
        p.height is None ==> h == height),
        p.width matches Some(a) ==> (p.height matches Some(b) ==> p.spec_size_after(width, height)
            == Some((a, b))),
{
}

} // verus!
