//! Mapping between DXGI pixel formats and Vulkan pixel formats.
use vstd::prelude::*;

verus! {

/// DXGI code of the four-channel 16-bit half-float format.
pub const DXGI_R16G16B16A16_FLOAT: u32 = 10;

/// DXGI code of the packed 11/11/10-bit float format.
pub const DXGI_R11G11B10_FLOAT: u32 = 26;

/// Vulkan code of `VK_FORMAT_R16G16B16A16_SFLOAT`.
pub const VK_R16G16B16A16_SFLOAT: u32 = 97;

/// Vulkan code of `VK_FORMAT_B10G11R11_UFLOAT_PACK32`.
pub const VK_B10G11R11_UFLOAT_PACK32: u32 = 122;

/// Relies on the constant `vk_sys::FORMAT_R16G16B16A16_SFLOAT`, which the
/// Vulkan registry fixes at 97.
#[verifier::external_body]
fn vk_r16g16b16a16_sfloat() -> (r: u32)
    ensures
        r == VK_R16G16B16A16_SFLOAT,
{
    vk_sys::FORMAT_R16G16B16A16_SFLOAT
}

/// Relies on the constant `vk_sys::FORMAT_B10G11R11_UFLOAT_PACK32`, which the
/// Vulkan registry fixes at 122.
#[verifier::external_body]
fn vk_b10g11r11_ufloat_pack32() -> (r: u32)
    ensures
        r == VK_B10G11R11_UFLOAT_PACK32,
{
    vk_sys::FORMAT_B10G11R11_UFLOAT_PACK32
}

/// The Vulkan format that corresponds to a DXGI format, where one is supported.
pub open spec fn vk_format_of(dxgi: u32) -> Option<u32> {
    if dxgi == DXGI_R16G16B16A16_FLOAT {
        Some(VK_R16G16B16A16_SFLOAT)
    } else if dxgi == DXGI_R11G11B10_FLOAT {
        Some(VK_B10G11R11_UFLOAT_PACK32)
    } else {
        None
    }
}

/// Bytes per pixel of a supported Vulkan format.
pub open spec fn pixel_size_of(vk: u32) -> Option<u32> {
    if vk == VK_R16G16B16A16_SFLOAT {
        Some(8)
    } else if vk == VK_B10G11R11_UFLOAT_PACK32 {
        Some(4)
    } else {
        None
    }
}

/// Maps a DXGI format code to the matching Vulkan format code.
pub fn dds_format2ktx2_format(format: u32) -> (r: Option<u32>)
    ensures
        r == vk_format_of(format),
{
    if format == DXGI_R16G16B16A16_FLOAT {
        Some(vk_r16g16b16a16_sfloat())
    } else if format == DXGI_R11G11B10_FLOAT {
        Some(vk_b10g11r11_ufloat_pack32())
    } else {
        None
    }
}

/// Bytes per pixel of a Vulkan format code, for the two supported formats.
pub fn pixel_size(format: u32) -> (r: Option<u32>)
    ensures
        r == pixel_size_of(format),
{
    if format == vk_r16g16b16a16_sfloat() {
        Some(8)
    } else if format == vk_b10g11r11_ufloat_pack32() {
        Some(4)
    } else {
        None
    }
}

} // verus!
