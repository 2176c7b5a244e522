//! The render info record's flags and the render method of materials.
use vstd::prelude::*;
use crate::bytes::{le_u32, u32_at, push_u32};
use crate::wld::parse::{WResult, u32_field, rest, too_short};

pub use crate::wld::fragments::common::render::{RenderInfo, UvInfo, UvMap};

verus! {

/// The flags of a render info record: which optional parts follow.
#[derive(Debug, Clone, Copy, PartialEq, Eq, Structural)]
pub struct RenderInfoFlags(pub u32);

impl RenderInfoFlags {
    const HAS_PEN: u32 = 0x01;
    const HAS_BRIGHTNESS: u32 = 0x02;
    const HAS_SCALED_AMBIENT: u32 = 0x04;
    const HAS_SIMPLE_SPRITE: u32 = 0x08;
    const HAS_UV_INFO: u32 = 0x10;
    const HAS_UV_MAP: u32 = 0x20;
    const IS_TWO_SIDED: u32 = 0x40;

    pub fn new(flags: u32) -> (r: Self)
        ensures
            r.0 == flags,
    {
        Self(flags)
    }

    pub fn parse(input: &[u8]) -> (r: WResult<'_, Self>)
        ensures
            input@.len() >= 4 ==> (r matches Ok((rest, f)) && f.0 == u32_at(input@, 0) && rest@ == input@.skip(4)),
            input@.len() < 4 ==> r is Err,
    {
        match u32_field(input, 0) {
            Some(v) => Ok((rest(input, 4), Self(v))),
            None => Err(too_short(input)),
        }
    }

    pub fn into_bytes(&self) -> (r: Vec<u8>)
        ensures
            r@ == le_u32(self.0),
    {
        let mut out = Vec::new();
        push_u32(&mut out, self.0);
        out
    }

    /// Whether a pen (color index) follows.
    pub fn has_pen(&self) -> (r: bool)
        ensures
            r == (self.0 & 0x01 == 0x01),
    {
        self.0 & Self::HAS_PEN == Self::HAS_PEN
    }

    /// Whether a brightness follows.
    pub fn has_brightness(&self) -> (r: bool)
        ensures
            r == (self.0 & 0x02 == 0x02),
    {
        self.0 & Self::HAS_BRIGHTNESS == Self::HAS_BRIGHTNESS
    }

    /// Whether a scaled ambient follows.
    pub fn has_scaled_ambient(&self) -> (r: bool)
        ensures
            r == (self.0 & 0x04 == 0x04),
    {
        self.0 & Self::HAS_SCALED_AMBIENT == Self::HAS_SCALED_AMBIENT
    }

    /// Whether a simple sprite reference follows.
    pub fn has_simple_sprite(&self) -> (r: bool)
        ensures
            r == (self.0 & 0x08 == 0x08),
    {
        self.0 & Self::HAS_SIMPLE_SPRITE == Self::HAS_SIMPLE_SPRITE
    }

    /// Whether UV information follows.
    pub fn has_uv_info(&self) -> (r: bool)
        ensures
            r == (self.0 & 0x10 == 0x10),
    {
        self.0 & Self::HAS_UV_INFO == Self::HAS_UV_INFO
    }

    /// Whether a UV map follows.
    pub fn has_uv_map(&self) -> (r: bool)
        ensures
            r == (self.0 & 0x20 == 0x20),
    {
        self.0 & Self::HAS_UV_MAP == Self::HAS_UV_MAP
    }

    /// Whether faces are drawn on both sides.
    pub fn is_two_sided(&self) -> (r: bool)
        ensures
            r == (self.0 & 0x40 == 0x40),
    {
        self.0 & Self::IS_TWO_SIDED == Self::IS_TWO_SIDED
    }
}

/// How a face is drawn.
#[derive(Debug, Clone, Copy, PartialEq, Eq, Structural)]
pub enum DrawStyle {
    Transparent,
    Unknown,
    Wireframe,
    Solid,
}

impl DrawStyle {
    /// The number that stands for the variant.
    pub open spec fn spec_value(&self) -> u32 {
        match self {
            DrawStyle::Transparent => 0x0,
            DrawStyle::Unknown => 0x1,
            DrawStyle::Wireframe => 0x2,
            DrawStyle::Solid => 0x3,
        }
    }

    /// The variant that `v` stands for, if any.
    pub open spec fn spec_from(v: u32) -> Option<Self> {
        if v == 0x0 {
            Some(DrawStyle::Transparent)
        } else if v == 0x1 {
            Some(DrawStyle::Unknown)
        } else if v == 0x2 {
            Some(DrawStyle::Wireframe)
        } else if v == 0x3 {
            Some(DrawStyle::Solid)
        } else {
            None
        }
    }

    pub fn to_u32(&self) -> (r: u32)
        ensures
            r == self.spec_value(),
    {
        match self {
            DrawStyle::Transparent => 0x0,
            DrawStyle::Unknown => 0x1,
            DrawStyle::Wireframe => 0x2,
            DrawStyle::Solid => 0x3,
        }
    }

    pub fn from_u32(v: u32) -> (r: Option<Self>)
        ensures
            r == Self::spec_from(v),
    {
        if v == 0x0 {
            Some(DrawStyle::Transparent)
        } else if v == 0x1 {
            Some(DrawStyle::Unknown)
        } else if v == 0x2 {
            Some(DrawStyle::Wireframe)
        } else if v == 0x3 {
            Some(DrawStyle::Solid)
        } else {
            None
        }
    }
}

/// How a face is lit.
#[derive(Debug, Clone, Copy, PartialEq, Eq, Structural)]
pub enum Lighting {
    ZeroIntensity,
    Unknown1,
    Constant,
    XXXXX,
    Ambient,
    ScaledAmbient,
    Unknown2,
    Invalid,
}

impl Lighting {
    /// The number that stands for the variant.
    pub open spec fn spec_value(&self) -> u32 {
        match self {
            Lighting::ZeroIntensity => 0x0,
            Lighting::Unknown1 => 0x1,
            Lighting::Constant => 0x2,
            Lighting::XXXXX => 0x3,
            Lighting::Ambient => 0x4,
            Lighting::ScaledAmbient => 0x5,
            Lighting::Unknown2 => 0x6,
            Lighting::Invalid => 0x7,
        }
    }

    /// The variant that `v` stands for, if any.
    pub open spec fn spec_from(v: u32) -> Option<Self> {
        if v == 0x0 {
            Some(Lighting::ZeroIntensity)
        } else if v == 0x1 {
            Some(Lighting::Unknown1)
        } else if v == 0x2 {
            Some(Lighting::Constant)
        } else if v == 0x3 {
            Some(Lighting::XXXXX)
        } else if v == 0x4 {
            Some(Lighting::Ambient)
        } else if v == 0x5 {
            Some(Lighting::ScaledAmbient)
        } else if v == 0x6 {
            Some(Lighting::Unknown2)
        } else if v == 0x7 {
            Some(Lighting::Invalid)
        } else {
            None
        }
    }

    pub fn to_u32(&self) -> (r: u32)
        ensures
            r == self.spec_value(),
    {
        match self {
            Lighting::ZeroIntensity => 0x0,
            Lighting::Unknown1 => 0x1,
            Lighting::Constant => 0x2,
            Lighting::XXXXX => 0x3,
            Lighting::Ambient => 0x4,
            Lighting::ScaledAmbient => 0x5,
            Lighting::Unknown2 => 0x6,
            Lighting::Invalid => 0x7,
        }
    }

    pub fn from_u32(v: u32) -> (r: Option<Self>)
        ensures
            r == Self::spec_from(v),
    {
        if v == 0x0 {
            Some(Lighting::ZeroIntensity)
        } else if v == 0x1 {
            Some(Lighting::Unknown1)
        } else if v == 0x2 {
            Some(Lighting::Constant)
        } else if v == 0x3 {
            Some(Lighting::XXXXX)
        } else if v == 0x4 {
            Some(Lighting::Ambient)
        } else if v == 0x5 {
            Some(Lighting::ScaledAmbient)
        } else if v == 0x6 {
            Some(Lighting::Unknown2)
        } else if v == 0x7 {
            Some(Lighting::Invalid)
        } else {
            None
        }
    }
}

/// How a face is shaded.
#[derive(Debug, Clone, Copy, PartialEq, Eq, Structural)]
pub enum Shading {
    None1,
    None2,
    Gouraud1,
    Gouraud2,
}

impl Shading {
    /// The number that stands for the variant.
    pub open spec fn spec_value(&self) -> u32 {
        match self {
            Shading::None1 => 0x0,
            Shading::None2 => 0x1,
            Shading::Gouraud1 => 0x2,
            Shading::Gouraud2 => 0x3,
        }
    }

    /// The variant that `v` stands for, if any.
    pub open spec fn spec_from(v: u32) -> Option<Self> {
        if v == 0x0 {
            Some(Shading::None1)
        } else if v == 0x1 {
            Some(Shading::None2)
        } else if v == 0x2 {
            Some(Shading::Gouraud1)
        } else if v == 0x3 {
            Some(Shading::Gouraud2)
        } else {
            None
        }
    }

    pub fn to_u32(&self) -> (r: u32)
        ensures
            r == self.spec_value(),
    {
        match self {
            Shading::None1 => 0x0,
            Shading::None2 => 0x1,
            Shading::Gouraud1 => 0x2,
            Shading::Gouraud2 => 0x3,
        }
    }

    pub fn from_u32(v: u32) -> (r: Option<Self>)
        ensures
            r == Self::spec_from(v),
    {
        if v == 0x0 {
            Some(Shading::None1)
        } else if v == 0x1 {
            Some(Shading::None2)
        } else if v == 0x2 {
            Some(Shading::Gouraud1)
        } else if v == 0x3 {
            Some(Shading::Gouraud2)
        } else {
            None
        }
    }
}

/// How a face is textured.
#[derive(Debug, Clone, Copy, PartialEq, Eq, Structural)]
pub enum TextureStyle {
    NoTexture,
    XXXXXXXX1,
    Texture1,
    TransTexture1,
    Texture2,
    TransTexture2,
    Texture3,
    XXXXXXXX2,
    Texture4,
    TransTexture4,
    Texture5,
    TransTexture5,
    Unknown1,
    UnknownTanarus,
    Unknown2,
    XXXXX,
}

impl TextureStyle {
    /// The number that stands for the variant.
    pub open spec fn spec_value(&self) -> u32 {
        match self {
            TextureStyle::NoTexture => 0x0,
            TextureStyle::XXXXXXXX1 => 0x1,
            TextureStyle::Texture1 => 0x2,
            TextureStyle::TransTexture1 => 0x3,
            TextureStyle::Texture2 => 0x4,
            TextureStyle::TransTexture2 => 0x5,
            TextureStyle::Texture3 => 0x6,
            TextureStyle::XXXXXXXX2 => 0x7,
            TextureStyle::Texture4 => 0x8,
            TextureStyle::TransTexture4 => 0x9,
            TextureStyle::Texture5 => 0xa,
            TextureStyle::TransTexture5 => 0xb,
            TextureStyle::Unknown1 => 0xc,
            TextureStyle::UnknownTanarus => 0xd,
            TextureStyle::Unknown2 => 0xe,
            TextureStyle::XXXXX => 0xf,
        }
    }

    /// The variant that `v` stands for, if any.
    pub open spec fn spec_from(v: u32) -> Option<Self> {
        if v == 0x0 {
            Some(TextureStyle::NoTexture)
        } else if v == 0x1 {
            Some(TextureStyle::XXXXXXXX1)
        } else if v == 0x2 {
            Some(TextureStyle::Texture1)
        } else if v == 0x3 {
            Some(TextureStyle::TransTexture1)
        } else if v == 0x4 {
            Some(TextureStyle::Texture2)
        } else if v == 0x5 {
            Some(TextureStyle::TransTexture2)
        } else if v == 0x6 {
            Some(TextureStyle::Texture3)
        } else if v == 0x7 {
            Some(TextureStyle::XXXXXXXX2)
        } else if v == 0x8 {
            Some(TextureStyle::Texture4)
        } else if v == 0x9 {
            Some(TextureStyle::TransTexture4)
        } else if v == 0xa {
            Some(TextureStyle::Texture5)
        } else if v == 0xb {
            Some(TextureStyle::TransTexture5)
        } else if v == 0xc {
            Some(TextureStyle::Unknown1)
        } else if v == 0xd {
            Some(TextureStyle::UnknownTanarus)
        } else if v == 0xe {
            Some(TextureStyle::Unknown2)
        } else if v == 0xf {
            Some(TextureStyle::XXXXX)
        } else {
            None
        }
    }

    pub fn to_u32(&self) -> (r: u32)
        ensures
            r == self.spec_value(),
    {
        match self {
            TextureStyle::NoTexture => 0x0,
            TextureStyle::XXXXXXXX1 => 0x1,
            TextureStyle::Texture1 => 0x2,
            TextureStyle::TransTexture1 => 0x3,
            TextureStyle::Texture2 => 0x4,
            TextureStyle::TransTexture2 => 0x5,
            TextureStyle::Texture3 => 0x6,
            TextureStyle::XXXXXXXX2 => 0x7,
            TextureStyle::Texture4 => 0x8,
            TextureStyle::TransTexture4 => 0x9,
            TextureStyle::Texture5 => 0xa,
            TextureStyle::TransTexture5 => 0xb,
            TextureStyle::Unknown1 => 0xc,
            TextureStyle::UnknownTanarus => 0xd,
            TextureStyle::Unknown2 => 0xe,
            TextureStyle::XXXXX => 0xf,
        }
    }

    pub fn from_u32(v: u32) -> (r: Option<Self>)
        ensures
            r == Self::spec_from(v),
    {
        if v == 0x0 {
            Some(TextureStyle::NoTexture)
        } else if v == 0x1 {
            Some(TextureStyle::XXXXXXXX1)
        } else if v == 0x2 {
            Some(TextureStyle::Texture1)
        } else if v == 0x3 {
            Some(TextureStyle::TransTexture1)
        } else if v == 0x4 {
            Some(TextureStyle::Texture2)
        } else if v == 0x5 {
            Some(TextureStyle::TransTexture2)
        } else if v == 0x6 {
            Some(TextureStyle::Texture3)
        } else if v == 0x7 {
            Some(TextureStyle::XXXXXXXX2)
        } else if v == 0x8 {
            Some(TextureStyle::Texture4)
        } else if v == 0x9 {
            Some(TextureStyle::TransTexture4)
        } else if v == 0xa {
            Some(TextureStyle::Texture5)
        } else if v == 0xb {
            Some(TextureStyle::TransTexture5)
        } else if v == 0xc {
            Some(TextureStyle::Unknown1)
        } else if v == 0xd {
            Some(TextureStyle::UnknownTanarus)
        } else if v == 0xe {
            Some(TextureStyle::Unknown2)
        } else if v == 0xf {
            Some(TextureStyle::XXXXX)
        } else {
            None
        }
    }
}

/// The kind of a user-defined material (after LanternExtractor's naming).
#[derive(Debug, Clone, Copy, PartialEq, Eq, Structural)]
pub enum MaterialType {
    Boundary,
    Diffuse,
    Diffuse2,
    Transparent50,
    Transparent25,
    Transparent75,
    TransparentMaskedPassable,
    TransparentAdditiveUnlit,
    TransparentMasked,
    Diffuse3,
    Diffuse4,
    TransparentAdditive,
    Diffuse5,
    InvisibleUnknown,
    Diffuse6,
    CompleteUnknown,
    Diffuse7,
    Diffuse8,
    InvisibleUnknown2,
    DiffuseSkydome,
    TransparentSkydome,
    TransparentAdditiveUnlitSkydome,
    InvisibleUnknown3,
    CompleteUnknown2,
}

impl MaterialType {
    /// The number that stands for the variant.
    pub open spec fn spec_value(&self) -> u32 {
        match self {
            MaterialType::Boundary => 0x0,
            MaterialType::Diffuse => 0x1,
            MaterialType::Diffuse2 => 0x2,
            MaterialType::Transparent50 => 0x5,
            MaterialType::Transparent25 => 0x9,
            MaterialType::Transparent75 => 0xa,
            MaterialType::TransparentMaskedPassable => 0x7,
            MaterialType::TransparentAdditiveUnlit => 0xb,
            MaterialType::TransparentMasked => 0x13,
            MaterialType::Diffuse3 => 0x14,
            MaterialType::Diffuse4 => 0x15,
            MaterialType::TransparentAdditive => 0x17,
            MaterialType::Diffuse5 => 0x19,
            MaterialType::InvisibleUnknown => 0x53,
            MaterialType::Diffuse6 => 0x553,
            MaterialType::CompleteUnknown => 0x1a,
            MaterialType::Diffuse7 => 0x12,
            MaterialType::Diffuse8 => 0x31,
            MaterialType::InvisibleUnknown2 => 0x4b,
            MaterialType::DiffuseSkydome => 0xd,
            MaterialType::TransparentSkydome => 0xf,
            MaterialType::TransparentAdditiveUnlitSkydome => 0x10,
            MaterialType::InvisibleUnknown3 => 0x3,
            MaterialType::CompleteUnknown2 => 0x6,
        }
    }

    /// The variant that `v` stands for, if any.
    pub open spec fn spec_from(v: u32) -> Option<Self> {
        if v == 0x0 {
            Some(MaterialType::Boundary)
        } else if v == 0x1 {
            Some(MaterialType::Diffuse)
        } else if v == 0x2 {
            Some(MaterialType::Diffuse2)
        } else if v == 0x5 {
            Some(MaterialType::Transparent50)
        } else if v == 0x9 {
            Some(MaterialType::Transparent25)
        } else if v == 0xa {
            Some(MaterialType::Transparent75)
        } else if v == 0x7 {
            Some(MaterialType::TransparentMaskedPassable)
        } else if v == 0xb {
            Some(MaterialType::TransparentAdditiveUnlit)
        } else if v == 0x13 {
            Some(MaterialType::TransparentMasked)
        } else if v == 0x14 {
            Some(MaterialType::Diffuse3)
        } else if v == 0x15 {
            Some(MaterialType::Diffuse4)
        } else if v == 0x17 {
            Some(MaterialType::TransparentAdditive)
        } else if v == 0x19 {
            Some(MaterialType::Diffuse5)
        } else if v == 0x53 {
            Some(MaterialType::InvisibleUnknown)
        } else if v == 0x553 {
            Some(MaterialType::Diffuse6)
        } else if v == 0x1a {
            Some(MaterialType::CompleteUnknown)
        } else if v == 0x12 {
            Some(MaterialType::Diffuse7)
        } else if v == 0x31 {
            Some(MaterialType::Diffuse8)
        } else if v == 0x4b {
            Some(MaterialType::InvisibleUnknown2)
        } else if v == 0xd {
            Some(MaterialType::DiffuseSkydome)
        } else if v == 0xf {
            Some(MaterialType::TransparentSkydome)
        } else if v == 0x10 {
            Some(MaterialType::TransparentAdditiveUnlitSkydome)
        } else if v == 0x3 {
            Some(MaterialType::InvisibleUnknown3)
        } else if v == 0x6 {
            Some(MaterialType::CompleteUnknown2)
        } else {
            None
        }
    }

    pub fn to_u32(&self) -> (r: u32)
        ensures
            r == self.spec_value(),
    {
        match self {
            MaterialType::Boundary => 0x0,
            MaterialType::Diffuse => 0x1,
            MaterialType::Diffuse2 => 0x2,
            MaterialType::Transparent50 => 0x5,
            MaterialType::Transparent25 => 0x9,
            MaterialType::Transparent75 => 0xa,
            MaterialType::TransparentMaskedPassable => 0x7,
            MaterialType::TransparentAdditiveUnlit => 0xb,
            MaterialType::TransparentMasked => 0x13,
            MaterialType::Diffuse3 => 0x14,
            MaterialType::Diffuse4 => 0x15,
            MaterialType::TransparentAdditive => 0x17,
            MaterialType::Diffuse5 => 0x19,
            MaterialType::InvisibleUnknown => 0x53,
            MaterialType::Diffuse6 => 0x553,
            MaterialType::CompleteUnknown => 0x1a,
            MaterialType::Diffuse7 => 0x12,
            MaterialType::Diffuse8 => 0x31,
            MaterialType::InvisibleUnknown2 => 0x4b,
            MaterialType::DiffuseSkydome => 0xd,
            MaterialType::TransparentSkydome => 0xf,
            MaterialType::TransparentAdditiveUnlitSkydome => 0x10,
            MaterialType::InvisibleUnknown3 => 0x3,
            MaterialType::CompleteUnknown2 => 0x6,
        }
    }

    pub fn from_u32(v: u32) -> (r: Option<Self>)
        ensures
            r == Self::spec_from(v),
    {
        if v == 0x0 {
            Some(MaterialType::Boundary)
        } else if v == 0x1 {
            Some(MaterialType::Diffuse)
        } else if v == 0x2 {
            Some(MaterialType::Diffuse2)
        } else if v == 0x5 {
            Some(MaterialType::Transparent50)
        } else if v == 0x9 {
            Some(MaterialType::Transparent25)
        } else if v == 0xa {
            Some(MaterialType::Transparent75)
        } else if v == 0x7 {
            Some(MaterialType::TransparentMaskedPassable)
        } else if v == 0xb {
            Some(MaterialType::TransparentAdditiveUnlit)
        } else if v == 0x13 {
            Some(MaterialType::TransparentMasked)
        } else if v == 0x14 {
            Some(MaterialType::Diffuse3)
        } else if v == 0x15 {
            Some(MaterialType::Diffuse4)
        } else if v == 0x17 {
            Some(MaterialType::TransparentAdditive)
        } else if v == 0x19 {
            Some(MaterialType::Diffuse5)
        } else if v == 0x53 {
            Some(MaterialType::InvisibleUnknown)
        } else if v == 0x553 {
            Some(MaterialType::Diffuse6)
        } else if v == 0x1a {
            Some(MaterialType::CompleteUnknown)
        } else if v == 0x12 {
            Some(MaterialType::Diffuse7)
        } else if v == 0x31 {
            Some(MaterialType::Diffuse8)
        } else if v == 0x4b {
            Some(MaterialType::InvisibleUnknown2)
        } else if v == 0xd {
            Some(MaterialType::DiffuseSkydome)
        } else if v == 0xf {
            Some(MaterialType::TransparentSkydome)
        } else if v == 0x10 {
            Some(MaterialType::TransparentAdditiveUnlitSkydome)
        } else if v == 0x3 {
            Some(MaterialType::InvisibleUnknown3)
        } else if v == 0x6 {
            Some(MaterialType::CompleteUnknown2)
        } else {
            None
        }
    }
}

/// How a material is rendered: the standard packed fields, or, with the top
/// bit set, a user-defined material type.
#[derive(Debug, Clone, Copy, PartialEq, Eq, Structural)]
pub enum RenderMethod {
    Standard {
        draw_style: DrawStyle,
        lighting: Lighting,
        shading: Shading,
        texture_style: TextureStyle,
        unknown_bits: u32,
    },
    UserDefined { material_type: MaterialType },
}

impl RenderMethod {
    /// The packed value: the draw style in bits 0-1, lighting in 2-4,
    /// shading in 5-6, texture style in 7-10 and the remaining bits from 11
    /// on; or the material type with the top bit set.
    pub open spec fn spec_as_u32(&self) -> u32 {
        match self {
            RenderMethod::Standard { draw_style, lighting, shading, texture_style, unknown_bits } => {
                draw_style.spec_value() | (lighting.spec_value() << 2u32) | (shading.spec_value() << 5u32)
                    | (texture_style.spec_value() << 7u32) | (*unknown_bits << 11u32)
            },
            RenderMethod::UserDefined { material_type } => material_type.spec_value() | 0x80000000u32,
        }
    }

    /// Whether `raw` stands for a render method: a standard one, or a
    /// user-defined one of a known material type.
    pub open spec fn is_known(raw: u32) -> bool {
        raw >> 31u32 == 1 ==> MaterialType::spec_from(raw & 0x7fffffffu32) is Some
    }

    /// The render method that `raw` stands for.
    pub open spec fn spec_from_u32(raw: u32) -> RenderMethod {
        if raw >> 31u32 == 1 {
            RenderMethod::UserDefined { material_type: MaterialType::spec_from(raw & 0x7fffffffu32)->Some_0 }
        } else {
            RenderMethod::Standard {
                draw_style: DrawStyle::spec_from(raw & 0x3u32)->Some_0,
                lighting: Lighting::spec_from((raw >> 2u32) & 0x7u32)->Some_0,
                shading: Shading::spec_from((raw >> 5u32) & 0x3u32)->Some_0,
                texture_style: TextureStyle::spec_from((raw >> 7u32) & 0xfu32)->Some_0,
                unknown_bits: (raw >> 11u32) & 0xfffffu32,
            }
        }
    }

    /// Render methods as they are read: the remaining bits fit in 20 bits.
    pub open spec fn wf(&self) -> bool {
        match self {
            RenderMethod::Standard { unknown_bits, .. } => *unknown_bits <= 0xfffff,
            RenderMethod::UserDefined { .. } => true,
        }
    }

    pub fn as_u32(&self) -> (r: u32)
        ensures
            r == self.spec_as_u32(),
    {
        match self {
            RenderMethod::Standard { draw_style, lighting, shading, texture_style, unknown_bits } => {
                draw_style.to_u32() | (lighting.to_u32() << 2u32) | (shading.to_u32() << 5u32) | (
                texture_style.to_u32() << 7u32) | (*unknown_bits << 11u32)
            },
            RenderMethod::UserDefined { material_type } => material_type.to_u32() | 0x80000000u32,
        }
    }

    /// The render method that `raw` stands for. A user-defined method of an
    /// unknown material type has no value (`is_known` rules it out).
    pub fn from_u32(raw: u32) -> (r: Self)
        requires
            Self::is_known(raw),
        ensures
            r == Self::spec_from_u32(raw),
            r.wf(),
    {
        if raw >> 31u32 == 1 {
            match MaterialType::from_u32(raw & 0x7fffffffu32) {
                Some(m) => RenderMethod::UserDefined { material_type: m },
                None => {
                    proof {
                        assert(false);
                    }
                    RenderMethod::UserDefined { material_type: MaterialType::Boundary }
                },
            }
        } else {
            let a = raw & 0x3u32;
            let b = (raw >> 2u32) & 0x7u32;
            let c = (raw >> 5u32) & 0x3u32;
            let d = (raw >> 7u32) & 0xfu32;
            let e = (raw >> 11u32) & 0xfffffu32;
            assert(a < 4 && b < 8 && c < 4 && d < 16 && e <= 0xfffff) by (bit_vector)
                requires
                    a == raw & 0x3u32,
                    b == (raw >> 2u32) & 0x7u32,
                    c == (raw >> 5u32) & 0x3u32,
                    d == (raw >> 7u32) & 0xfu32,
                    e == (raw >> 11u32) & 0xfffffu32,
            ;
            let draw_style = match DrawStyle::from_u32(a) {
                Some(x) => x,
                None => DrawStyle::Transparent,
            };
            let lighting = match Lighting::from_u32(b) {
                Some(x) => x,
                None => Lighting::ZeroIntensity,
            };
            let shading = match Shading::from_u32(c) {
                Some(x) => x,
                None => Shading::None1,
            };
            let texture_style = match TextureStyle::from_u32(d) {
                Some(x) => x,
                None => TextureStyle::NoTexture,
            };
            RenderMethod::Standard { draw_style, lighting, shading, texture_style, unknown_bits: e }
        }
    }

    pub fn parse(input: &[u8]) -> (r: WResult<'_, Self>)
        requires
            input@.len() >= 4 ==> Self::is_known(u32_at(input@, 0)),
        ensures
            input@.len() >= 4 ==> (r matches Ok((rest, m)) && m == Self::spec_from_u32(u32_at(input@, 0))
                && rest@ == input@.skip(4)),
            input@.len() < 4 ==> r is Err,
    {
        match u32_field(input, 0) {
            Some(v) => Ok((rest(input, 4), Self::from_u32(v))),
            None => Err(too_short(input)),
        }
    }

    pub fn into_bytes(&self) -> (r: Vec<u8>)
        ensures
            r@ == le_u32(self.spec_as_u32()),
    {
        let mut out = Vec::new();
        push_u32(&mut out, self.as_u32());
        out
    }
}


/// The draw styles and their numbers.
/// Each draw style is stored as the number the format gives it (listed here
/// variant by variant), reading a stored number gives the draw style whose number
/// it is, and no other number is read as one.
pub proof fn lemma_draw_style_codes()
    ensures
        DrawStyle::Transparent.spec_value() == 0x0,
        DrawStyle::Unknown.spec_value() == 0x1,
        DrawStyle::Wireframe.spec_value() == 0x2,
        DrawStyle::Solid.spec_value() == 0x3,
        forall|v: u32| #[trigger] DrawStyle::spec_from(v) is Some ==> DrawStyle::spec_from(v)->Some_0.spec_value() == v,
        forall|t: DrawStyle| #[trigger] DrawStyle::spec_from(t.spec_value()) == Some(t),
{
    assert forall|t: DrawStyle| #[trigger] DrawStyle::spec_from(t.spec_value()) == Some(t) by {
        match t {
            DrawStyle::Transparent => {},
            DrawStyle::Unknown => {},
            DrawStyle::Wireframe => {},
            DrawStyle::Solid => {},
        }
    }
}

/// The lightings and their numbers.
/// Each lighting is stored as the number the format gives it (listed here
/// variant by variant), reading a stored number gives the lighting whose number
/// it is, and no other number is read as one.
pub proof fn lemma_lighting_codes()
    ensures
        Lighting::ZeroIntensity.spec_value() == 0x0,
        Lighting::Unknown1.spec_value() == 0x1,
        Lighting::Constant.spec_value() == 0x2,
        Lighting::XXXXX.spec_value() == 0x3,
        Lighting::Ambient.spec_value() == 0x4,
        Lighting::ScaledAmbient.spec_value() == 0x5,
        Lighting::Unknown2.spec_value() == 0x6,
        Lighting::Invalid.spec_value() == 0x7,
        forall|v: u32| #[trigger] Lighting::spec_from(v) is Some ==> Lighting::spec_from(v)->Some_0.spec_value() == v,
        forall|t: Lighting| #[trigger] Lighting::spec_from(t.spec_value()) == Some(t),
{
    assert forall|t: Lighting| #[trigger] Lighting::spec_from(t.spec_value()) == Some(t) by {
        match t {
            Lighting::ZeroIntensity => {},
            Lighting::Unknown1 => {},
            Lighting::Constant => {},
            Lighting::XXXXX => {},
            Lighting::Ambient => {},
            Lighting::ScaledAmbient => {},
            Lighting::Unknown2 => {},
            Lighting::Invalid => {},
        }
    }
}

/// The shadings and their numbers.
/// Each shading is stored as the number the format gives it (listed here
/// variant by variant), reading a stored number gives the shading whose number
/// it is, and no other number is read as one.
pub proof fn lemma_shading_codes()
    ensures
        Shading::None1.spec_value() == 0x0,
        Shading::None2.spec_value() == 0x1,
        Shading::Gouraud1.spec_value() == 0x2,
        Shading::Gouraud2.spec_value() == 0x3,
        forall|v: u32| #[trigger] Shading::spec_from(v) is Some ==> Shading::spec_from(v)->Some_0.spec_value() == v,
        forall|t: Shading| #[trigger] Shading::spec_from(t.spec_value()) == Some(t),
{
    assert forall|t: Shading| #[trigger] Shading::spec_from(t.spec_value()) == Some(t) by {
        match t {
            Shading::None1 => {},
            Shading::None2 => {},
            Shading::Gouraud1 => {},
            Shading::Gouraud2 => {},
        }
    }
}

/// The texture styles and their numbers.
/// Each texture style is stored as the number the format gives it (listed here
/// variant by variant), reading a stored number gives the texture style whose number
/// it is, and no other number is read as one.
pub proof fn lemma_texture_style_codes()
    ensures
        TextureStyle::NoTexture.spec_value() == 0x0,
        TextureStyle::XXXXXXXX1.spec_value() == 0x1,
        TextureStyle::Texture1.spec_value() == 0x2,
        TextureStyle::TransTexture1.spec_value() == 0x3,
        TextureStyle::Texture2.spec_value() == 0x4,
        TextureStyle::TransTexture2.spec_value() == 0x5,
        TextureStyle::Texture3.spec_value() == 0x6,
        TextureStyle::XXXXXXXX2.spec_value() == 0x7,
        TextureStyle::Texture4.spec_value() == 0x8,
        TextureStyle::TransTexture4.spec_value() == 0x9,
        TextureStyle::Texture5.spec_value() == 0xa,
        TextureStyle::TransTexture5.spec_value() == 0xb,
        TextureStyle::Unknown1.spec_value() == 0xc,
        TextureStyle::UnknownTanarus.spec_value() == 0xd,
        TextureStyle::Unknown2.spec_value() == 0xe,
        TextureStyle::XXXXX.spec_value() == 0xf,
        forall|v: u32| #[trigger] TextureStyle::spec_from(v) is Some ==> TextureStyle::spec_from(v)->Some_0.spec_value() == v,
        forall|t: TextureStyle| #[trigger] TextureStyle::spec_from(t.spec_value()) == Some(t),
{
    assert forall|t: TextureStyle| #[trigger] TextureStyle::spec_from(t.spec_value()) == Some(t) by {
        match t {
            TextureStyle::NoTexture => {},
            TextureStyle::XXXXXXXX1 => {},
            TextureStyle::Texture1 => {},
            TextureStyle::TransTexture1 => {},
            TextureStyle::Texture2 => {},
            TextureStyle::TransTexture2 => {},
            TextureStyle::Texture3 => {},
            TextureStyle::XXXXXXXX2 => {},
            TextureStyle::Texture4 => {},
            TextureStyle::TransTexture4 => {},
            TextureStyle::Texture5 => {},
            TextureStyle::TransTexture5 => {},
            TextureStyle::Unknown1 => {},
            TextureStyle::UnknownTanarus => {},
            TextureStyle::Unknown2 => {},
            TextureStyle::XXXXX => {},
        }
    }
}

/// The user-defined material types and their numbers.
/// Each material type is stored as the number the format gives it (listed here
/// variant by variant), reading a stored number gives the material type whose number
/// it is, and no other number is read as one.
pub proof fn lemma_material_type_codes()
    ensures
        MaterialType::Boundary.spec_value() == 0x0,
        MaterialType::Diffuse.spec_value() == 0x1,
        MaterialType::Diffuse2.spec_value() == 0x2,
        MaterialType::Transparent50.spec_value() == 0x5,
        MaterialType::Transparent25.spec_value() == 0x9,
        MaterialType::Transparent75.spec_value() == 0xa,
        MaterialType::TransparentMaskedPassable.spec_value() == 0x7,
        MaterialType::TransparentAdditiveUnlit.spec_value() == 0xb,
        MaterialType::TransparentMasked.spec_value() == 0x13,
        MaterialType::Diffuse3.spec_value() == 0x14,
        MaterialType::Diffuse4.spec_value() == 0x15,
        MaterialType::TransparentAdditive.spec_value() == 0x17,
        MaterialType::Diffuse5.spec_value() == 0x19,
        MaterialType::InvisibleUnknown.spec_value() == 0x53,
        MaterialType::Diffuse6.spec_value() == 0x553,
        MaterialType::CompleteUnknown.spec_value() == 0x1a,
        MaterialType::Diffuse7.spec_value() == 0x12,
        MaterialType::Diffuse8.spec_value() == 0x31,
        MaterialType::InvisibleUnknown2.spec_value() == 0x4b,
        MaterialType::DiffuseSkydome.spec_value() == 0xd,
        MaterialType::TransparentSkydome.spec_value() == 0xf,
        MaterialType::TransparentAdditiveUnlitSkydome.spec_value() == 0x10,
        MaterialType::InvisibleUnknown3.spec_value() == 0x3,
        MaterialType::CompleteUnknown2.spec_value() == 0x6,
        forall|v: u32| #[trigger] MaterialType::spec_from(v) is Some ==> MaterialType::spec_from(v)->Some_0.spec_value() == v,
        forall|t: MaterialType| #[trigger] MaterialType::spec_from(t.spec_value()) == Some(t),
{
    assert forall|t: MaterialType| #[trigger] MaterialType::spec_from(t.spec_value()) == Some(t) by {
        match t {
            MaterialType::Boundary => {},
            MaterialType::Diffuse => {},
            MaterialType::Diffuse2 => {},
            MaterialType::Transparent50 => {},
            MaterialType::Transparent25 => {},
            MaterialType::Transparent75 => {},
            MaterialType::TransparentMaskedPassable => {},
            MaterialType::TransparentAdditiveUnlit => {},
            MaterialType::TransparentMasked => {},
            MaterialType::Diffuse3 => {},
            MaterialType::Diffuse4 => {},
            MaterialType::TransparentAdditive => {},
            MaterialType::Diffuse5 => {},
            MaterialType::InvisibleUnknown => {},
            MaterialType::Diffuse6 => {},
            MaterialType::CompleteUnknown => {},
            MaterialType::Diffuse7 => {},
            MaterialType::Diffuse8 => {},
            MaterialType::InvisibleUnknown2 => {},
            MaterialType::DiffuseSkydome => {},
            MaterialType::TransparentSkydome => {},
            MaterialType::TransparentAdditiveUnlitSkydome => {},
            MaterialType::InvisibleUnknown3 => {},
            MaterialType::CompleteUnknown2 => {},
        }
    }
}

/// What a known render method word is read as, field by field: with the top
/// bit set, the material type whose number is the other 31 bits; else the
/// draw style whose number is bits 0-1, the lighting of bits 2-4, the
/// shading of bits 5-6, the texture style of bits 7-10, and bits 11 on as
/// the remaining bits.
pub proof fn lemma_render_method_fields(raw: u32)
    requires
        RenderMethod::is_known(raw),
    ensures
        raw >> 31u32 == 1 ==> (RenderMethod::spec_from_u32(raw) matches RenderMethod::UserDefined { material_type }
            && material_type.spec_value() == raw & 0x7fffffffu32),
        raw >> 31u32 != 1 ==> (RenderMethod::spec_from_u32(raw) matches RenderMethod::Standard {
            draw_style,
            lighting,
            shading,
            texture_style,
            unknown_bits,
        } && draw_style.spec_value() == raw & 0x3u32 && lighting.spec_value() == (raw >> 2u32) & 0x7u32
            && shading.spec_value() == (raw >> 5u32) & 0x3u32 && texture_style.spec_value() == (raw >> 7u32)
            & 0xfu32 && unknown_bits == (raw >> 11u32) & 0xfffffu32),
{
    lemma_draw_style_codes();
    lemma_lighting_codes();
    lemma_shading_codes();
    lemma_texture_style_codes();
    lemma_material_type_codes();
    if raw >> 31u32 != 1 {
        let a = raw & 0x3u32;
        let b = (raw >> 2u32) & 0x7u32;
        let c = (raw >> 5u32) & 0x3u32;
        let d = (raw >> 7u32) & 0xfu32;
        assert(a < 4 && b < 8 && c < 4 && d < 16) by (bit_vector)
            requires
                a == raw & 0x3u32,
                b == (raw >> 2u32) & 0x7u32,
                c == (raw >> 5u32) & 0x3u32,
                d == (raw >> 7u32) & 0xfu32,
        ;
        assert(DrawStyle::spec_from(a) is Some);
        assert(Lighting::spec_from(b) is Some);
        assert(Shading::spec_from(c) is Some);
        assert(TextureStyle::spec_from(d) is Some);
    }
}

/// Packing a well-formed render method and reading it back gives it back.
pub proof fn lemma_render_method_round_trip(m: RenderMethod)
    requires
        m.wf(),
    ensures
        RenderMethod::is_known(m.spec_as_u32()),
        RenderMethod::spec_from_u32(m.spec_as_u32()) == m,
{
    match m {
        RenderMethod::Standard { draw_style, lighting, shading, texture_style, unknown_bits } => {
            let a = draw_style.spec_value();
            let b = lighting.spec_value();
            let c = shading.spec_value();
            let d = texture_style.spec_value();
            let e = unknown_bits;
            let raw = m.spec_as_u32();
            assert(a < 4 && b < 8 && c < 4 && d < 16);
            assert(raw >> 31u32 == 0 && raw & 0x3u32 == a && (raw >> 2u32) & 0x7u32 == b && (raw
                >> 5u32) & 0x3u32 == c && (raw >> 7u32) & 0xfu32 == d && (raw >> 11u32) & 0xfffffu32
                == e) by (bit_vector)
                requires
                    a < 4,
                    b < 8,
                    c < 4,
                    d < 16,
                    e <= 0xfffff,
                    raw == a | (b << 2u32) | (c << 5u32) | (d << 7u32) | (e << 11u32),
            ;
        },
        RenderMethod::UserDefined { material_type } => {
            let a = material_type.spec_value();
            let raw = m.spec_as_u32();
            assert(a < 0x8000_0000);
            assert(raw >> 31u32 == 1 && raw & 0x7fffffffu32 == a) by (bit_vector)
                requires
                    a < 0x8000_0000,
                    raw == a | 0x80000000u32,
            ;
        },
    }
}

/// Reading a known value and packing it again gives the value back.
pub proof fn lemma_render_method_value(raw: u32)
    requires
        RenderMethod::is_known(raw),
    ensures
        RenderMethod::spec_from_u32(raw).spec_as_u32() == raw,
{
    if raw >> 31u32 == 1 {
        let a = raw & 0x7fffffffu32;
        assert(MaterialType::spec_from(a)->Some_0.spec_value() == a);
        assert(a | 0x80000000u32 == raw) by (bit_vector)
            requires
                raw >> 31u32 == 1,
                a == raw & 0x7fffffffu32,
        ;
    } else {
        assert(raw >> 31u32 == 0) by (bit_vector)
            requires
                raw >> 31u32 != 1,
        ;
        let a = raw & 0x3u32;
        let b = (raw >> 2u32) & 0x7u32;
        let c = (raw >> 5u32) & 0x3u32;
        let d = (raw >> 7u32) & 0xfu32;
        let e = (raw >> 11u32) & 0xfffffu32;
        assert(a < 4 && b < 8 && c < 4 && d < 16) by (bit_vector)
            requires
                a == raw & 0x3u32,
                b == (raw >> 2u32) & 0x7u32,
                c == (raw >> 5u32) & 0x3u32,
                d == (raw >> 7u32) & 0xfu32,
        ;
        assert(DrawStyle::spec_from(a)->Some_0.spec_value() == a);
        assert(Lighting::spec_from(b)->Some_0.spec_value() == b);
        assert(Shading::spec_from(c)->Some_0.spec_value() == c);
        assert(TextureStyle::spec_from(d)->Some_0.spec_value() == d);
        assert(a | (b << 2u32) | (c << 5u32) | (d << 7u32) | (e << 11u32) == raw) by (bit_vector)
            requires
                raw >> 31u32 == 0,
                a == raw & 0x3u32,
                b == (raw >> 2u32) & 0x7u32,
                c == (raw >> 5u32) & 0x3u32,
                d == (raw >> 7u32) & 0xfu32,
                e == (raw >> 11u32) & 0xfffffu32,
        ;
    }
}

} // verus!
