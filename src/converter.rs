//! Conversion of a DDS cubemap into a KTX2 container: validation of the
//! source, and the re-layout of its pixel data from face-major order (each
//! face with all its mip levels) to level-major order (each mip level with all
//! six faces).
use vstd::arithmetic::div_mod::lemma_div_denominator;
use vstd::bits::lemma_u32_shr_is_div;
use vstd::arithmetic::power2::{lemma_pow2_pos, lemma_pow2_unfold, pow2};
use crate::format::{dds_format2ktx2_format, pixel_size, pixel_size_of, vk_format_of};
use crate::ktx2::{
    data_offset, empty_view, index_entry, ktx2_bytes, le32, lemma_ktx2_layout, lemma_ktx2_size,
    push_all, total_len, Ktx2View, HEADER_SIZE, KTX2,
};
use vstd::prelude::*;

verus! {

/// Number of faces of a cubemap.
pub const FACE_COUNT: u32 = 6;

/// Whether `x` is an exact power of two (1, 2, 4, ...).
pub open spec fn power_of_two(x: nat) -> bool
    decreases x,
{
    if x == 0 {
        false
    } else if x == 1 {
        true
    } else if x % 2 == 1 {
        false
    } else {
        power_of_two(x / 2)
    }
}

/// Tells whether `x` is an exact power of two.
pub fn is_power_of_two(x: u32) -> (r: bool)
    ensures
        r == power_of_two(x as nat),
{
    let mut v: u32 = x;
    while v > 1 && v % 2 == 0
        invariant
            power_of_two(v as nat) == power_of_two(x as nat),
        decreases v,
    {
        v = v / 2;
    }
    v == 1
}

/// Width (or height) of mip level `i` of a texture whose level 0 is `d` wide.
pub open spec fn level_dim(d: u32, i: nat) -> nat {
    d as nat / pow2(i)
}

/// Bytes of one face at mip level `i`.
pub open spec fn face_size(w: u32, h: u32, ps: u32, i: nat) -> nat {
    level_dim(w, i) * level_dim(h, i) * ps as nat
}

/// Where mip level `i` starts within one face's mip chain.
pub open spec fn level_offset(w: u32, h: u32, ps: u32, i: nat) -> nat
    decreases i,
{
    if i == 0 {
        0
    } else {
        level_offset(w, h, ps, (i - 1) as nat) + face_size(w, h, ps, (i - 1) as nat)
    }
}

/// The `size` bytes of face `f` that start `off` bytes into that face's chain,
/// the faces' chains being `stride` bytes apart.
pub open spec fn face_chunk(data: Seq<u8>, stride: nat, off: nat, size: nat, f: nat) -> Seq<u8> {
    data.subrange((stride * f + off) as int, (stride * f + off + size) as int)
}

/// The chunks of faces `0..k`, one after the other.
pub open spec fn faces_upto(data: Seq<u8>, stride: nat, off: nat, size: nat, k: nat) -> Seq<u8>
    decreases k,
{
    if k == 0 {
        Seq::empty()
    } else {
        faces_upto(data, stride, off, size, (k - 1) as nat) + face_chunk(
            data,
            stride,
            off,
            size,
            (k - 1) as nat,
        )
    }
}

/// Output mip level `i`: that level of each of the six faces, in face order.
pub open spec fn level_bytes(data: Seq<u8>, stride: nat, w: u32, h: u32, ps: u32, i: nat) -> Seq<
    u8,
> {
    faces_upto(data, stride, level_offset(w, h, ps, i), face_size(w, h, ps, i), FACE_COUNT as nat)
}

/// The first `n` output mip levels.
pub open spec fn reordered_levels(
    data: Seq<u8>,
    stride: nat,
    w: u32,
    h: u32,
    ps: u32,
    n: nat,
) -> Seq<Seq<u8>> {
    Seq::new(n, |i: int| level_bytes(data, stride, w, h, ps, i as nat))
}

/// Whether every chunk that the first `n` levels read lies inside `data`.
pub open spec fn reads_fit(data_len: nat, stride: nat, w: u32, h: u32, ps: u32, n: nat) -> bool {
    n == 0 || 5 * stride + level_offset(w, h, ps, n) <= data_len
}

/// A level dimension is the level-0 dimension shifted right by the level.
pub proof fn lemma_level_dim_is_shift(d: u32, i: u32)
    requires
        i < 32,
    ensures
        level_dim(d, i as nat) == (d >> i),
{
    lemma_u32_shr_is_div(d, i);
}

proof fn lemma_level_offset_mono(w: u32, h: u32, ps: u32, i: nat, j: nat)
    requires
        i <= j,
    ensures
        level_offset(w, h, ps, i) <= level_offset(w, h, ps, j),
    decreases j - i,
{
    if i < j {
        lemma_level_offset_mono(w, h, ps, i, (j - 1) as nat);
    }
}

proof fn lemma_level_dim_next(d: u32, i: nat)
    ensures
        level_dim(d, i + 1) == level_dim(d, i) / 2,
{
    lemma_pow2_pos(i);
    lemma_pow2_unfold(i + 1);
    assert(pow2(i + 1) == pow2(i) * 2) by (nonlinear_arith)
        requires
            pow2(i + 1) == 2 * pow2((i + 1 - 1) as nat),
            (i + 1 - 1) as nat == i,
    ;
    lemma_div_denominator(d as int, pow2(i) as int, 2);
}

proof fn lemma_face_size_bound(lw: u32, lh: u32, ps: u32)
    ensures
        (lw as nat) * (lh as nat) <= 0xFFFF_FFFF_FFFF_FFFF,
        (lw as nat) * (lh as nat) * (ps as nat) <= 0xFFFF_FFFF_FFFF_FFFF_FFFF_FFFF,
{
    assert((lw as nat) * (lh as nat) <= 0xFFFF_FFFF_FFFF_FFFF) by (nonlinear_arith)
        requires
            lw <= 0xFFFF_FFFF,
            lh <= 0xFFFF_FFFF,
    ;
    assert((lw as nat) * (lh as nat) * (ps as nat) <= 0xFFFF_FFFF_FFFF_FFFF_FFFF_FFFF)
        by (nonlinear_arith)
        requires
            lw <= 0xFFFF_FFFF,
            lh <= 0xFFFF_FFFF,
            ps <= 0xFFFF_FFFF,
    {
        assert((lw as nat) * (lh as nat) <= 0xFFFF_FFFF * 0xFFFF_FFFF);
    }
}

/// Gathers the output mip levels from face-major source data.
///
/// Face `f`'s mip chain starts at `face_stride * f` in `data`; within it
/// level `i` starts at `level_offset(i)` and is `face_size(i)` bytes long.
/// Output level `i` is level `i` of faces 0 to 5, in that order. The result is
/// `None` exactly when one of these chunks would reach past the end of `data`.
pub fn reorder_levels(
    data: &[u8],
    face_stride: usize,
    width: u32,
    height: u32,
    level_count: u32,
    pixel_size: u32,
) -> (r: Option<Vec<Vec<u8>>>)
    ensures
        r is None <==> !reads_fit(
            data@.len(),
            face_stride as nat,
            width,
            height,
            pixel_size,
            level_count as nat,
        ),
        r matches Some(levels) ==> levels@.map_values(|l: Vec<u8>| l@) == reordered_levels(
            data@,
            face_stride as nat,
            width,
            height,
            pixel_size,
            level_count as nat,
        ),
{
    let ghost stride = face_stride as nat;
    let data_len: usize = data.len();
    let mut levels: Vec<Vec<u8>> = Vec::new();
    let mut lw: u32 = width;
    let mut lh: u32 = height;
    let mut offset: u128 = 0;
    let mut i: u32 = 0;
    proof {
        assert(pow2(0) == 1) by {
            vstd::arithmetic::power2::lemma2_to64();
        }
    }
    while i < level_count
        invariant
            i <= level_count,
            lw as nat == level_dim(width, i as nat),
            lh as nat == level_dim(height, i as nat),
            offset == level_offset(width, height, pixel_size, i as nat),
            reads_fit(data@.len(), stride, width, height, pixel_size, i as nat),
            stride == face_stride as nat,
            data_len == data@.len(),
            offset <= data_len,
            levels@.map_values(|l: Vec<u8>| l@) == reordered_levels(
                data@,
                stride,
                width,
                height,
                pixel_size,
                i as nat,
            ),
        decreases level_count - i,
    {
        proof {
            lemma_face_size_bound(lw, lh, pixel_size);
        }
        let size: u128 = (lw as u128) * (lh as u128) * (pixel_size as u128);
        let stride5: u128 = 5 * (face_stride as u128);
        if stride5 + offset + size > data_len as u128 {
            proof {
                lemma_level_offset_mono(
                    width,
                    height,
                    pixel_size,
                    (i + 1) as nat,
                    level_count as nat,
                );
            }
            return None;
        }
        assert(size as nat == face_size(width, height, pixel_size, i as nat));
        let size_u: usize = size as usize;
        let off_u: usize = offset as usize;
        let mut level_data: Vec<u8> = Vec::new();
        let mut f: usize = 0;
        while f < 6
            invariant
                f <= 6,
                stride == face_stride as nat,
                data_len == data@.len(),
                5 * face_stride + off_u + size_u <= data_len,
                level_data@ == faces_upto(data@, stride, off_u as nat, size_u as nat, f as nat),
            decreases 6 - f,
        {
            assert(face_stride * f <= 5 * face_stride) by (nonlinear_arith)
                requires
                    0 <= f < 6,
                    0 <= face_stride,
            ;
            let start: usize = face_stride * f + off_u;
            let chunk = vstd::slice::slice_subrange(data, start, start + size_u);
            push_all(&mut level_data, chunk);
            assert(chunk@ == face_chunk(data@, stride, off_u as nat, size_u as nat, f as nat));
            f = f + 1;
        }
        assert(level_data@ == level_bytes(data@, stride, width, height, pixel_size, i as nat));
        let ghost old_levels = levels@;
        let ghost ld = level_data@;
        levels.push(level_data);
        proof {
            let mapped = levels@.map_values(|l: Vec<u8>| l@);
            let target = reordered_levels(data@, stride, width, height, pixel_size, (i + 1) as nat);
            assert(old_levels.map_values(|l: Vec<u8>| l@) == reordered_levels(
                data@,
                stride,
                width,
                height,
                pixel_size,
                i as nat,
            ));
            assert(old_levels.map_values(|l: Vec<u8>| l@).len() == old_levels.len());
            assert(old_levels.len() == i);
            assert(levels@.len() == i + 1);
            assert(levels@.drop_last() == old_levels);
            assert forall|j: int| 0 <= j < i + 1 implies mapped[j] == target[j] by {
                assert(mapped[j] == levels@[j]@);
                assert(target[j] == level_bytes(data@, stride, width, height, pixel_size, j as nat));
                if j < i {
                    assert(levels@[j] == old_levels[j]);
                    assert(old_levels.map_values(|l: Vec<u8>| l@)[j] == old_levels[j]@);
                    assert(reordered_levels(data@, stride, width, height, pixel_size, i as nat)[j]
                        == level_bytes(data@, stride, width, height, pixel_size, j as nat));
                } else {
                    assert(levels@[j]@ == ld);
                }
            }
            assert(mapped =~= target);
            lemma_level_dim_next(width, i as nat);
            lemma_level_dim_next(height, i as nat);
        }
        offset = offset + size;
        lw = lw / 2;
        lh = lh / 2;
        i = i + 1;
    }
    Some(levels)
}

/// Why a conversion failed.
#[derive(Debug, Clone, Copy, PartialEq, Eq, Structural)]
pub enum ConversionError {
    /// The input is not a structurally valid DDS container, or its pixel data
    /// is shorter than its header announces.
    DecodeFailed,
    /// The cubemap capability bit is not set.
    NotACubemap,
    /// The container carries no DXGI pixel format.
    UnknownSourceFormat,
    /// The DXGI pixel format (given by its code) has no supported counterpart.
    UnsupportedFormat(u32),
    /// Width or height is not a power of two.
    NotPowerOfTwo { width: u32, height: u32 },
    /// The output cannot be written: it is too large for 64-bit offsets, or
    /// the output stream refused it.
    WriteFailed,
}

/// A decoded DDS texture: what the conversion reads of it.
pub struct SourceTexture {
    pub width: u32,
    pub height: u32,
    pub mip_level_count: u32,
    /// Whether the cubemap capability bit is set.
    pub is_cubemap: bool,
    /// The DXGI format code, where the container has one.
    pub dxgi_format: Option<u32>,
    /// Length of one face's whole mip chain, which is also the distance
    /// between the starts of consecutive faces; `None` where the decoder
    /// could not locate the first face.
    pub face_stride: Option<usize>,
    /// Pixel data: each face's mip chain in turn, face 0 first.
    pub data: Vec<u8>,
}

/// What a `SourceTexture` holds, with its pixel data as a sequence.
pub struct SourceView {
    pub width: u32,
    pub height: u32,
    pub mip_level_count: u32,
    pub is_cubemap: bool,
    pub dxgi_format: Option<u32>,
    pub face_stride: Option<usize>,
    pub data: Seq<u8>,
}

impl View for SourceTexture {
    type V = SourceView;

    open spec fn view(&self) -> SourceView {
        SourceView {
            width: self.width,
            height: self.height,
            mip_level_count: self.mip_level_count,
            is_cubemap: self.is_cubemap,
            dxgi_format: self.dxgi_format,
            face_stride: self.face_stride,
            data: self.data@,
        }
    }
}

/// The KTX2 model built for a cubemap with the given dimensions, level count,
/// Vulkan format and levels.
pub open spec fn target_view(w: u32, h: u32, n: u32, vk: u32, levels: Seq<Seq<u8>>) -> Ktx2View {
    Ktx2View {
        pixel_width: w,
        pixel_height: h,
        level_count: n,
        vk_format: vk,
        face_count: FACE_COUNT,
        levels: levels,
        ..empty_view()
    }
}

/// The result of converting `src`: its checks in order, then the KTX2 bytes.
pub open spec fn converted(src: SourceView) -> Result<Seq<u8>, ConversionError> {
    if !src.is_cubemap {
        Err(ConversionError::NotACubemap)
    } else if src.dxgi_format is None {
        Err(ConversionError::UnknownSourceFormat)
    } else if vk_format_of(src.dxgi_format->Some_0) is None {
        Err(ConversionError::UnsupportedFormat(src.dxgi_format->Some_0))
    } else if !power_of_two(src.width as nat) || !power_of_two(src.height as nat) {
        Err(ConversionError::NotPowerOfTwo { width: src.width, height: src.height })
    } else {
        let vk = vk_format_of(src.dxgi_format->Some_0)->Some_0;
        let ps = pixel_size_of(vk)->Some_0;
        if src.face_stride is None || !reads_fit(
            src.data.len(),
            src.face_stride->Some_0 as nat,
            src.width,
            src.height,
            ps,
            src.mip_level_count as nat,
        ) {
            Err(ConversionError::DecodeFailed)
        } else {
            let m = target_view(
                src.width,
                src.height,
                src.mip_level_count,
                vk,
                reordered_levels(
                    src.data,
                    src.face_stride->Some_0 as nat,
                    src.width,
                    src.height,
                    ps,
                    src.mip_level_count as nat,
                ),
            );
            if data_offset(m) + total_len(m.levels) > u64::MAX {
                Err(ConversionError::WriteFailed)
            } else {
                Ok(ktx2_bytes(m))
            }
        }
    }
}

/// Sum of the lengths of the levels.
fn levels_total(levels: &Vec<Vec<u8>>) -> (r: u128)
    ensures
        r == total_len(levels@.map_values(|l: Vec<u8>| l@)),
        r <= levels@.len() * 0xFFFF_FFFF_FFFF_FFFF,
{
    let ghost all = levels@.map_values(|l: Vec<u8>| l@);
    let mut total: u128 = 0;
    let mut i: usize = 0;
    assert(all.take(0) =~= Seq::<Seq<u8>>::empty());
    while i < levels.len()
        invariant
            all == levels@.map_values(|l: Vec<u8>| l@),
            i <= levels@.len(),
            total == total_len(all.take(i as int)),
            total <= i * 0xFFFF_FFFF_FFFF_FFFFu128,
        decreases levels@.len() - i,
    {
        let len = levels[i].len();
        proof {
            assert(all.take(i + 1).drop_last() =~= all.take(i as int));
            assert(all[i as int] == levels@[i as int]@);
        }
        total = total + len as u128;
        i = i + 1;
    }
    assert(all.take(i as int) =~= all);
    total
}

/// Converts a decoded cubemap into the bytes of a KTX2 container.
///
/// The checks run in this order: cubemap bit, presence of a DXGI format,
/// support of that format, power-of-two width and height, pixel data long
/// enough for every level of every face, output size within 64-bit offsets.
pub fn convert_texture(src: &SourceTexture) -> (r: Result<Vec<u8>, ConversionError>)
    ensures
        match r {
            Ok(bytes) => converted(src@) == Ok::<Seq<u8>, ConversionError>(bytes@),
            Err(e) => converted(src@) == Err::<Seq<u8>, ConversionError>(e),
        },
{
    if !src.is_cubemap {
        return Err(ConversionError::NotACubemap);
    }
    let dxgi = match src.dxgi_format {
        Some(d) => d,
        None => {
            return Err(ConversionError::UnknownSourceFormat);
        },
    };
    let vk = match dds_format2ktx2_format(dxgi) {
        Some(v) => v,
        None => {
            return Err(ConversionError::UnsupportedFormat(dxgi));
        },
    };
    if !is_power_of_two(src.width) || !is_power_of_two(src.height) {
        return Err(ConversionError::NotPowerOfTwo { width: src.width, height: src.height });
    }
    let ps = match pixel_size(vk) {
        Some(p) => p,
        None => {
            return Err(ConversionError::UnsupportedFormat(dxgi));
        },
    };
    let stride = match src.face_stride {
        Some(s) => s,
        None => {
            return Err(ConversionError::DecodeFailed);
        },
    };
    let n = src.mip_level_count;
    let levels = match reorder_levels(src.data.as_slice(), stride, src.width, src.height, n, ps) {
        Some(l) => l,
        None => {
            return Err(ConversionError::DecodeFailed);
        },
    };
    let ghost all = levels@.map_values(|l: Vec<u8>| l@);
    let mut ktx = KTX2::new().width(src.width).height(src.height).levels(n).vk_format(
        vk,
    ).face_count(FACE_COUNT);
    let mut i: usize = 0;
    assert(all.take(0) =~= Seq::<Seq<u8>>::empty());
    assert(ktx@ =~= target_view(src.width, src.height, n, vk, all.take(0)));
    while i < levels.len()
        invariant
            all == levels@.map_values(|l: Vec<u8>| l@),
            i <= levels@.len(),
            ktx@ == target_view(src.width, src.height, n, vk, all.take(i as int)),
        decreases levels@.len() - i,
    {
        ktx = ktx.add_level(levels[i].as_slice());
        proof {
            assert(all[i as int] == levels@[i as int]@);
            assert(all.take(i as int).push(all[i as int]) =~= all.take(i + 1));
            assert(ktx@ =~= target_view(src.width, src.height, n, vk, all.take(i + 1)));
        }
        i = i + 1;
    }
    assert(all.take(i as int) =~= all);
    let total = levels_total(&levels);
    proof {
        assert(levels@.len() == all.len());
        assert(total <= (n as nat) * 0xFFFF_FFFF_FFFF_FFFF) by (nonlinear_arith)
            requires
                total <= levels@.len() * 0xFFFF_FFFF_FFFF_FFFF,
                levels@.len() == n,
        ;
        assert((n as nat) * 0xFFFF_FFFF_FFFF_FFFF <= 0xFFFF_FFFF * 0xFFFF_FFFF_FFFF_FFFF)
            by (nonlinear_arith)
            requires
                n <= 0xFFFF_FFFF,
        ;
    }
    if (HEADER_SIZE as u128) + 4 + 24 * (n as u128) + total > 0xFFFF_FFFF_FFFF_FFFFu128 {
        return Err(ConversionError::WriteFailed);
    }
    let mut out: Vec<u8> = Vec::new();
    ktx.write(&mut out);
    assert(out@ =~= ktx2_bytes(ktx@));
    Ok(out)
}

/// Whether `Dds::read` accepts the bytes as a DDS container.
pub uninterp spec fn dds_decodes(b: Seq<u8>) -> bool;

/// `Dds::get_width` of the container that the bytes decode to.
pub uninterp spec fn dds_width_of(b: Seq<u8>) -> u32;

/// `Dds::get_height` of the container that the bytes decode to.
pub uninterp spec fn dds_height_of(b: Seq<u8>) -> u32;

/// `Dds::get_num_mipmap_levels` of the container that the bytes decode to.
pub uninterp spec fn dds_levels_of(b: Seq<u8>) -> u32;

/// `Dds::get_depth` of the container that the bytes decode to.
pub uninterp spec fn dds_depth_of(b: Seq<u8>) -> u32;

/// The DX10 header's array size of the container that the bytes decode to,
/// 0 where it has no DX10 header.
pub uninterp spec fn dds_array_size_of(b: Seq<u8>) -> u32;

/// Whether the cubemap bit of caps2 is set in the container that the bytes
/// decode to.
pub uninterp spec fn dds_cubemap_of(b: Seq<u8>) -> bool;

/// The code of `Dds::get_dxgi_format` of the container that the bytes decode
/// to.
pub uninterp spec fn dds_dxgi_of(b: Seq<u8>) -> Option<u32>;

/// The length of `Dds::get_data(0)` of the container that the bytes decode to,
/// where it has a layer 0.
pub uninterp spec fn dds_stride_of(b: Seq<u8>) -> Option<usize>;

/// The pixel data (the `data` field) of the container that the bytes decode
/// to.
pub uninterp spec fn dds_data_of(b: Seq<u8>) -> Seq<u8>;

/// Relies on ddsfile's `Dds::read` over a byte slice: whether it parses the
/// bytes (magic, header, optional DX10 header, the rest as pixel data).
#[verifier::external_body]
fn dds_parses(bytes: &[u8]) -> (r: bool)
    ensures
        r == dds_decodes(bytes@),
{
    ddsfile::Dds::read(bytes).is_ok()
}

/// Relies on ddsfile's `Dds::get_width`: the width from the header.
#[verifier::external_body]
fn dds_width(bytes: &[u8]) -> (r: u32)
    requires
        dds_decodes(bytes@),
    ensures
        r == dds_width_of(bytes@),
{
    match ddsfile::Dds::read(bytes) {
        Ok(dds) => dds.get_width(),
        Err(_) => 0,
    }
}

/// Relies on ddsfile's `Dds::get_height`: the height from the header.
#[verifier::external_body]
fn dds_height(bytes: &[u8]) -> (r: u32)
    requires
        dds_decodes(bytes@),
    ensures
        r == dds_height_of(bytes@),
{
    match ddsfile::Dds::read(bytes) {
        Ok(dds) => dds.get_height(),
        Err(_) => 0,
    }
}

/// Relies on ddsfile's `Dds::get_num_mipmap_levels`: the header's mipmap
/// count, 1 where it has none.
#[verifier::external_body]
fn dds_levels(bytes: &[u8]) -> (r: u32)
    requires
        dds_decodes(bytes@),
    ensures
        r == dds_levels_of(bytes@),
{
    match ddsfile::Dds::read(bytes) {
        Ok(dds) => dds.get_num_mipmap_levels(),
        Err(_) => 0,
    }
}

/// Relies on ddsfile's `Dds::get_depth`: the header's depth, 1 where it has
/// none.
#[verifier::external_body]
fn dds_depth(bytes: &[u8]) -> (r: u32)
    requires
        dds_decodes(bytes@),
    ensures
        r == dds_depth_of(bytes@),
{
    match ddsfile::Dds::read(bytes) {
        Ok(dds) => dds.get_depth(),
        Err(_) => 0,
    }
}

/// Relies on ddsfile's public `header10` field: the DX10 header's
/// `array_size`, 0 where there is no DX10 header.
#[verifier::external_body]
fn dds_array_size(bytes: &[u8]) -> (r: u32)
    requires
        dds_decodes(bytes@),
    ensures
        r == dds_array_size_of(bytes@),
{
    match ddsfile::Dds::read(bytes) {
        Ok(dds) => match dds.header10 {
            Some(h10) => h10.array_size,
            None => 0,
        },
        Err(_) => 0,
    }
}

/// Relies on ddsfile's `Caps2::contains`: whether the header's caps2 field
/// has the cubemap bit.
#[verifier::external_body]
fn dds_is_cubemap(bytes: &[u8]) -> (r: bool)
    requires
        dds_decodes(bytes@),
    ensures
        r == dds_cubemap_of(bytes@),
{
    match ddsfile::Dds::read(bytes) {
        Ok(dds) => dds.header.caps2.contains(ddsfile::Caps2::CUBEMAP),
        Err(_) => false,
    }
}

/// Relies on ddsfile's `Dds::get_dxgi_format`: the DXGI format, if the
/// container has one, as its numeric code (the enum is `repr(u32)`).
#[verifier::external_body]
fn dds_dxgi_code(bytes: &[u8]) -> (r: Option<u32>)
    requires
        dds_decodes(bytes@),
    ensures
        r == dds_dxgi_of(bytes@),
{
    match ddsfile::Dds::read(bytes) {
        Ok(dds) => dds.get_dxgi_format().map(|f| f as u32),
        Err(_) => None,
    }
}

/// Whether ddsfile's `u32` arithmetic for the length of layer 0 stays in
/// range, for a format of at most 64 bits per pixel and pitch height 1: the
/// bit count of a level-0 row, the sum over the levels (each level at most
/// `8 * max(w >> i, 1) * max(h >> i, 1) * max(depth, 1)` bytes, which sums to
/// at most `8 * max(depth, 1) * (4wh + 6w + 6h + 3n) / 3`), and the layer
/// count of a cube array.
pub open spec fn stride_fits(w: u32, h: u32, depth: u32, levels: u32, array_size: u32) -> bool {
    let d: int = if depth == 0 {
        1
    } else {
        depth as int
    };
    &&& 64 * (w as int) <= u32::MAX
    &&& 8 * (d * (4 * ((w as int) * (h as int)) + 6 * (w as int) + 6 * (h as int) + 3 * (
    levels as int))) <= 3 * (u32::MAX as int)
    &&& 6 * (array_size as int) <= u32::MAX
}

/// Whether `Dds::get_data(0)` can be asked of the container that the bytes
/// decode to: its format is one of the two supported ones and its header
/// values pass `stride_fits`.
pub open spec fn dds_stride_usable(b: Seq<u8>) -> bool {
    &&& dds_dxgi_of(b) is Some
    &&& vk_format_of(dds_dxgi_of(b)->Some_0) is Some
    &&& stride_fits(
        dds_width_of(b),
        dds_height_of(b),
        dds_depth_of(b),
        dds_levels_of(b),
        dds_array_size_of(b),
    )
}

/// Relies on ddsfile's `Dds::get_data`: the length of array layer 0, which
/// for a cubemap is the first face with all its mip levels. The `requires`
/// keeps out the headers on which its `u32` arithmetic overflows.
#[verifier::external_body]
fn dds_face_stride(bytes: &[u8]) -> (r: Option<usize>)
    requires
        dds_decodes(bytes@),
        dds_stride_usable(bytes@),
    ensures
        r == dds_stride_of(bytes@),
{
    match ddsfile::Dds::read(bytes) {
        Ok(dds) => dds.get_data(0).ok().map(|layer| layer.len()),
        Err(_) => None,
    }
}

/// Relies on ddsfile's public `data` field: the pixel data after the headers.
#[verifier::external_body]
fn dds_data(bytes: &[u8]) -> (r: Vec<u8>)
    requires
        dds_decodes(bytes@),
    ensures
        r@ == dds_data_of(bytes@),
{
    match ddsfile::Dds::read(bytes) {
        Ok(dds) => dds.data,
        Err(_) => Vec::new(),
    }
}

/// Tells whether `stride_fits` holds.
fn check_stride_fits(w: u32, h: u32, depth: u32, levels: u32, array_size: u32) -> (r: bool)
    ensures
        r == stride_fits(w, h, depth, levels, array_size),
{
    let d: u128 = if depth == 0 {
        1
    } else {
        depth as u128
    };
    let w2: u128 = w as u128;
    let h2: u128 = h as u128;
    proof {
        assert(w2 * h2 <= 0xFFFF_FFFF * 0xFFFF_FFFF) by (nonlinear_arith)
            requires
                w2 <= 0xFFFF_FFFF,
                h2 <= 0xFFFF_FFFF,
        ;
    }
    let inner: u128 = 4 * (w2 * h2) + 6 * w2 + 6 * h2 + 3 * (levels as u128);
    proof {
        assert(d * inner <= 0xFFFF_FFFF * 0x10_0000_0000_0000_0000) by (nonlinear_arith)
            requires
                d <= 0xFFFF_FFFF,
                inner <= 0x10_0000_0000_0000_0000,
        ;
    }
    64 * w2 <= 0xFFFF_FFFF && 8 * (d * inner) <= 3 * 0xFFFF_FFFF && 6 * (array_size as u128)
        <= 0xFFFF_FFFF
}

/// The texture that the bytes decode to, as `convert` reads it: the face
/// stride is asked of ddsfile only where `dds_stride_usable` holds, and is
/// `None` elsewhere.
pub open spec fn decoded_source(b: Seq<u8>) -> SourceView {
    SourceView {
        width: dds_width_of(b),
        height: dds_height_of(b),
        mip_level_count: dds_levels_of(b),
        is_cubemap: dds_cubemap_of(b),
        dxgi_format: dds_dxgi_of(b),
        face_stride: if dds_stride_usable(b) {
            dds_stride_of(b)
        } else {
            None
        },
        data: dds_data_of(b),
    }
}

/// Decodes a DDS cubemap and converts it into the bytes of a KTX2 container.
///
/// Input that ddsfile cannot parse gives `DecodeFailed`; every other result is
/// what `convert_texture` gives on the decoded texture.
pub fn convert(input: &[u8]) -> (r: Result<Vec<u8>, ConversionError>)
    ensures
        match r {
            Ok(bytes) => dds_decodes(input@) && converted(decoded_source(input@)) == Ok::<
                Seq<u8>,
                ConversionError,
            >(bytes@),
            Err(e) => if dds_decodes(input@) {
                converted(decoded_source(input@)) == Err::<Seq<u8>, ConversionError>(e)
            } else {
                e == ConversionError::DecodeFailed
            },
        },
{
    if !dds_parses(input) {
        return Err(ConversionError::DecodeFailed);
    }
    let width = dds_width(input);
    let height = dds_height(input);
    let mip_level_count = dds_levels(input);
    let depth = dds_depth(input);
    let array_size = dds_array_size(input);
    let is_cubemap = dds_is_cubemap(input);
    let dxgi_format = dds_dxgi_code(input);
    let supported = match dxgi_format {
        Some(code) => dds_format2ktx2_format(code).is_some(),
        None => false,
    };
    let face_stride = if supported && check_stride_fits(
        width,
        height,
        depth,
        mip_level_count,
        array_size,
    ) {
        dds_face_stride(input)
    } else {
        None
    };
    let data = dds_data(input);
    let src = SourceTexture {
        width,
        height,
        mip_level_count,
        is_cubemap,
        dxgi_format,
        face_stride,
        data,
    };
    assert(src@ == decoded_source(input@));
    convert_texture(&src)
}

#[verifier::spinoff_prover]
proof fn lemma_faces_upto_len(data: Seq<u8>, stride: nat, off: nat, size: nat, k: nat)
    requires
        k == 0 || stride * (k - 1) + off + size <= data.len(),
    ensures
        faces_upto(data, stride, off, size, k).len() == k * size,
    decreases k,
{
    if k > 0 {
        let j = (k - 1) as nat;
        if j > 0 {
            assert(stride * (j - 1) <= stride * j) by (nonlinear_arith)
                requires
                    j > 0,
            ;
        }
        lemma_faces_upto_len(data, stride, off, size, j);
        assert(stride * j == stride * (k - 1));
        assert(face_chunk(data, stride, off, size, j).len() == size);
        assert(k * size == j * size + size) by (nonlinear_arith)
            requires
                j == k - 1,
        ;
    }
}

/// Byte size law: where every read fits, output level `i` holds exactly six
/// faces of that level, `6 * level_dim(w, i) * level_dim(h, i) * ps` bytes,
/// and there are exactly `n` levels.
pub proof fn lemma_level_sizes(data: Seq<u8>, stride: nat, w: u32, h: u32, ps: u32, n: nat)
    requires
        reads_fit(data.len(), stride, w, h, ps, n),
    ensures
        reordered_levels(data, stride, w, h, ps, n).len() == n,
        forall|i: nat|
            i < n ==> (#[trigger] reordered_levels(data, stride, w, h, ps, n)[i as int]).len()
                == 6 * face_size(w, h, ps, i),
{
    assert forall|i: nat| i < n implies (#[trigger] reordered_levels(
        data,
        stride,
        w,
        h,
        ps,
        n,
    )[i as int]).len() == 6 * face_size(w, h, ps, i) by {
        lemma_level_offset_mono(w, h, ps, i + 1, n);
        assert(stride * 5 + level_offset(w, h, ps, i) + face_size(w, h, ps, i) <= data.len());
        lemma_faces_upto_len(
            data,
            stride,
            level_offset(w, h, ps, i),
            face_size(w, h, ps, i),
            FACE_COUNT as nat,
        );
    }
}

/// Shape of a successful conversion: as many levels as the source has mip
/// levels; the header's level count at byte 40 and face count 6 at byte 36;
/// at `80 + 24 * i` the index entry of level `i`, whose length and
/// uncompressed length are both `6 * face_size(w, h, ps, i)` (six faces of
/// `(w >> i) * (h >> i)` pixels) and whose offset is the data offset plus the
/// lengths before it; a zero descriptor total size after the index; and a
/// total size of header, index, those 4 bytes and the level bytes.
pub proof fn lemma_converted_shape(src: SourceView)
    requires
        converted(src) is Ok,
    ensures
        ({
            let vk = vk_format_of(src.dxgi_format->Some_0)->Some_0;
            let ps = pixel_size_of(vk)->Some_0;
            let n = src.mip_level_count as int;
            let levels = reordered_levels(
                src.data,
                src.face_stride->Some_0 as nat,
                src.width,
                src.height,
                ps,
                n as nat,
            );
            let m = target_view(src.width, src.height, src.mip_level_count, vk, levels);
            let b = converted(src)->Ok_0;
            &&& levels.len() == n
            &&& b.subrange(40, 44) == le32(src.mip_level_count)
            &&& b.subrange(36, 40) == le32(FACE_COUNT)
            &&& forall|i: int|
                0 <= i < n ==> #[trigger] b.subrange(80 + 24 * i, 104 + 24 * i) == index_entry(
                    data_offset(m) + total_len(levels.take(i)),
                    (6 * face_size(src.width, src.height, ps, i as nat)) as int,
                )
            &&& b.subrange(80 + 24 * n, 84 + 24 * n) == le32(0)
            &&& b.len() == HEADER_SIZE + 24 * n + 4 + total_len(levels)
        }),
{
    let vk = vk_format_of(src.dxgi_format->Some_0)->Some_0;
    let ps = pixel_size_of(vk)->Some_0;
    let n = src.mip_level_count as int;
    let stride = src.face_stride->Some_0 as nat;
    let levels = reordered_levels(src.data, stride, src.width, src.height, ps, n as nat);
    let m = target_view(src.width, src.height, src.mip_level_count, vk, levels);
    lemma_ktx2_size(m);
    lemma_ktx2_layout(m);
    lemma_level_sizes(src.data, stride, src.width, src.height, ps, n as nat);
    let b = converted(src)->Ok_0;
    assert forall|i: int| 0 <= i < n implies #[trigger] b.subrange(80 + 24 * i, 104 + 24 * i)
        == index_entry(
        data_offset(m) + total_len(levels.take(i)),
        (6 * face_size(src.width, src.height, ps, i as nat)) as int,
    ) by {
        assert(levels[i].len() == 6 * face_size(src.width, src.height, ps, i as nat));
    }
}

} // verus!
