//! The KTX2 container: a builder that gathers the header fields and the mip
//! levels, and its serialisation.
use byteorder::ByteOrder;
use vstd::prelude::*;

verus! {

/// Size in bytes of the fixed KTX2 header, identifier included.
pub const HEADER_SIZE: u64 = 80;

/// The twelve bytes that open every KTX2 file: `«KTX 20»\r\n\x1A\n`.
pub open spec fn ktx2_identifier() -> Seq<u8> {
    seq![0xABu8, 0x4Bu8, 0x54u8, 0x58u8, 0x20u8, 0x32u8, 0x30u8, 0xBBu8, 0x0Du8, 0x0Au8, 0x1Au8, 0x0Au8]
}

/// Little-endian bytes of a 32-bit value.
pub open spec fn le32(v: u32) -> Seq<u8> {
    seq![
        (v % 0x100) as u8,
        ((v / 0x100) % 0x100) as u8,
        ((v / 0x1_0000) % 0x100) as u8,
        (v / 0x100_0000) as u8,
    ]
}

/// Little-endian bytes of a 64-bit value.
pub open spec fn le64(v: u64) -> Seq<u8> {
    le32((v % 0x1_0000_0000) as u32) + le32((v / 0x1_0000_0000) as u32)
}

/// Relies on byteorder's `LittleEndian::write_u32`: it stores `n` into the
/// first four bytes of the buffer, least significant byte first.
#[verifier::external_body]
fn u32_le_bytes(n: u32) -> (r: [u8; 4])
    ensures
        r@ == le32(n),
{
    let mut buf = [0u8; 4];
    byteorder::LittleEndian::write_u32(&mut buf, n);
    buf
}

/// Relies on byteorder's `LittleEndian::write_u64`: it stores `n` into the
/// first eight bytes of the buffer, least significant byte first.
#[verifier::external_body]
fn u64_le_bytes(n: u64) -> (r: [u8; 8])
    ensures
        r@ == le64(n),
{
    let mut buf = [0u8; 8];
    byteorder::LittleEndian::write_u64(&mut buf, n);
    buf
}

/// Appends the bytes of a slice.
pub(crate) fn push_all(out: &mut Vec<u8>, bytes: &[u8])
    ensures
        final(out)@ == old(out)@ + bytes@,
{
    let mut i: usize = 0;
    while i < bytes.len()
        invariant
            i <= bytes@.len(),
            out@ == old(out)@ + bytes@.subrange(0, i as int),
        decreases bytes@.len() - i,
    {
        out.push(bytes[i]);
        i = i + 1;
        assert(bytes@.subrange(0, i as int) == bytes@.subrange(0, i - 1) + seq![bytes@[i - 1]]);
    }
    assert(bytes@.subrange(0, i as int) == bytes@);
}

/// Appends a 32-bit value in little-endian order.
fn push_u32(out: &mut Vec<u8>, v: u32)
    ensures
        final(out)@ == old(out)@ + le32(v),
{
    let b = u32_le_bytes(v);
    push_all(out, &b);
}

/// Appends a 64-bit value in little-endian order.
fn push_u64(out: &mut Vec<u8>, v: u64)
    ensures
        final(out)@ == old(out)@ + le64(v),
{
    let b = u64_le_bytes(v);
    push_all(out, &b);
}

/// What a KTX2 builder holds: every header field, and the mip levels in the
/// order they were added, largest first.
pub struct Ktx2View {
    pub identifier: Seq<u8>,
    pub vk_format: u32,
    pub type_size: u32,
    pub pixel_width: u32,
    pub pixel_height: u32,
    pub pixel_depth: u32,
    pub layer_count: u32,
    pub face_count: u32,
    pub level_count: u32,
    pub supercompression_scheme: u32,
    pub dfd_byte_offset: u32,
    pub dfd_byte_length: u32,
    pub kvd_byte_offset: u32,
    pub kvd_byte_length: u32,
    pub sgd_byte_offset: u64,
    pub sgd_byte_length: u64,
    pub levels: Seq<Seq<u8>>,
}

/// The serialised header: identifier, then each field little-endian in order.
pub open spec fn header_bytes(m: Ktx2View) -> Seq<u8> {
    m.identifier + le32(m.vk_format) + le32(m.type_size) + le32(m.pixel_width) + le32(
        m.pixel_height,
    ) + le32(m.pixel_depth) + le32(m.layer_count) + le32(m.face_count) + le32(m.level_count)
        + le32(m.supercompression_scheme) + le32(m.dfd_byte_offset) + le32(m.dfd_byte_length)
        + le32(m.kvd_byte_offset) + le32(m.kvd_byte_length) + le64(m.sgd_byte_offset) + le64(
        m.sgd_byte_length,
    )
}

/// Sum of the lengths of a sequence of levels.
pub open spec fn total_len(levels: Seq<Seq<u8>>) -> nat
    decreases levels.len(),
{
    if levels.len() == 0 {
        0
    } else {
        total_len(levels.drop_last()) + levels.last().len()
    }
}

/// The levels laid end to end.
pub open spec fn concat_levels(levels: Seq<Seq<u8>>) -> Seq<u8>
    decreases levels.len(),
{
    if levels.len() == 0 {
        Seq::empty()
    } else {
        concat_levels(levels.drop_last()) + levels.last()
    }
}

/// Where the level data starts: after the header, the level index (three
/// 64-bit fields per declared level) and the 4-byte descriptor total size.
pub open spec fn data_offset(m: Ktx2View) -> int {
    HEADER_SIZE + 24 * m.level_count + 4
}

/// One level index entry: offset, length, uncompressed length.
pub open spec fn index_entry(offset: int, len: int) -> Seq<u8> {
    le64(offset as u64) + le64(len as u64) + le64(len as u64)
}

/// The level index for the first `levels.len()` levels, the first of them
/// starting at `base`.
pub open spec fn level_index(levels: Seq<Seq<u8>>, base: int) -> Seq<u8>
    decreases levels.len(),
{
    if levels.len() == 0 {
        Seq::empty()
    } else {
        level_index(levels.drop_last(), base) + index_entry(
            base + total_len(levels.drop_last()),
            levels.last().len() as int,
        )
    }
}

/// The whole serialised container.
pub open spec fn ktx2_bytes(m: Ktx2View) -> Seq<u8> {
    header_bytes(m) + level_index(m.levels, data_offset(m)) + le32(0) + concat_levels(m.levels)
}

/// The fixed-size header of a KTX2 file.
struct KTX2Header {
    identifier: [u8; 12],
    vk_format: u32,
    type_size: u32,
    pixel_width: u32,
    pixel_height: u32,
    pixel_depth: u32,
    layer_count: u32,
    face_count: u32,
    level_count: u32,
    supercompression_scheme: u32,
    dfd_byte_offset: u32,
    dfd_byte_length: u32,
    kvd_byte_offset: u32,
    kvd_byte_length: u32,
    sgd_byte_offset: u64,
    sgd_byte_length: u64,
}

impl Default for KTX2Header {
    /// A header with the KTX2 identifier and every other field zero.
    fn default() -> (r: KTX2Header)
        ensures
            r.model(Seq::empty()) == empty_view(),
    {
        let r = KTX2Header {
            identifier: [0xAB, 0x4B, 0x54, 0x58, 0x20, 0x32, 0x30, 0xBB, 0x0D, 0x0A, 0x1A, 0x0A],
            vk_format: 0,
            type_size: 0,
            pixel_width: 0,
            pixel_height: 0,
            pixel_depth: 0,
            layer_count: 0,
            face_count: 0,
            level_count: 0,
            supercompression_scheme: 0,
            dfd_byte_offset: 0,
            dfd_byte_length: 0,
            kvd_byte_offset: 0,
            kvd_byte_length: 0,
            sgd_byte_offset: 0,
            sgd_byte_length: 0,
        };
        assert(r.identifier@ =~= ktx2_identifier());
        assert(r.model(Seq::empty()) =~= empty_view());
        r
    }
}

impl KTX2Header {
    pub closed spec fn model(&self, levels: Seq<Seq<u8>>) -> Ktx2View {
        Ktx2View {
            identifier: self.identifier@,
            vk_format: self.vk_format,
            type_size: self.type_size,
            pixel_width: self.pixel_width,
            pixel_height: self.pixel_height,
            pixel_depth: self.pixel_depth,
            layer_count: self.layer_count,
            face_count: self.face_count,
            level_count: self.level_count,
            supercompression_scheme: self.supercompression_scheme,
            dfd_byte_offset: self.dfd_byte_offset,
            dfd_byte_length: self.dfd_byte_length,
            kvd_byte_offset: self.kvd_byte_offset,
            kvd_byte_length: self.kvd_byte_length,
            sgd_byte_offset: self.sgd_byte_offset,
            sgd_byte_length: self.sgd_byte_length,
            levels,
        }
    }

    /// Appends the serialised header.
    pub fn write(&self, out: &mut Vec<u8>)
        ensures
            final(out)@ == old(out)@ + header_bytes(self.model(Seq::empty())),
    {
        let ghost start = out@;
        let ghost mut done: Seq<u8> = Seq::empty();
        push_all(out, &self.identifier);
        proof {
            done = done + self.identifier@;
        }
        assert(out@ =~= start + done);
        push_u32(out, self.vk_format);
        proof {
            done = done + le32(self.vk_format);
        }
        assert(out@ =~= start + done);
        push_u32(out, self.type_size);
        proof {
            done = done + le32(self.type_size);
        }
        assert(out@ =~= start + done);
        push_u32(out, self.pixel_width);
        proof {
            done = done + le32(self.pixel_width);
        }
        assert(out@ =~= start + done);
        push_u32(out, self.pixel_height);
        proof {
            done = done + le32(self.pixel_height);
        }
        assert(out@ =~= start + done);
        push_u32(out, self.pixel_depth);
        proof {
            done = done + le32(self.pixel_depth);
        }
        assert(out@ =~= start + done);
        push_u32(out, self.layer_count);
        proof {
            done = done + le32(self.layer_count);
        }
        assert(out@ =~= start + done);
        push_u32(out, self.face_count);
        proof {
            done = done + le32(self.face_count);
        }
        assert(out@ =~= start + done);
        push_u32(out, self.level_count);
        proof {
            done = done + le32(self.level_count);
        }
        assert(out@ =~= start + done);
        push_u32(out, self.supercompression_scheme);
        proof {
            done = done + le32(self.supercompression_scheme);
        }
        assert(out@ =~= start + done);
        push_u32(out, self.dfd_byte_offset);
        proof {
            done = done + le32(self.dfd_byte_offset);
        }
        assert(out@ =~= start + done);
        push_u32(out, self.dfd_byte_length);
        proof {
            done = done + le32(self.dfd_byte_length);
        }
        assert(out@ =~= start + done);
        push_u32(out, self.kvd_byte_offset);
        proof {
            done = done + le32(self.kvd_byte_offset);
        }
        assert(out@ =~= start + done);
        push_u32(out, self.kvd_byte_length);
        proof {
            done = done + le32(self.kvd_byte_length);
        }
        assert(out@ =~= start + done);
        push_u64(out, self.sgd_byte_offset);
        proof {
            done = done + le64(self.sgd_byte_offset);
        }
        assert(out@ =~= start + done);
        push_u64(out, self.sgd_byte_length);
        proof {
            done = done + le64(self.sgd_byte_length);
        }
        assert(out@ =~= start + done);
        assert(done =~= header_bytes(self.model(Seq::empty())));
    }
}

/// A KTX2 container under construction: header fields set one by one, and
/// mip levels appended largest first.
pub struct KTX2 {
    header: KTX2Header,
    levels: Vec<Vec<u8>>,
}

impl View for KTX2 {
    type V = Ktx2View;

    closed spec fn view(&self) -> Ktx2View {
        self.header.model(self.levels@.map_values(|l: Vec<u8>| l@))
    }
}

/// The model of a freshly made builder: the identifier, every field zero, no
/// levels.
pub open spec fn empty_view() -> Ktx2View {
    Ktx2View {
        identifier: ktx2_identifier(),
        vk_format: 0,
        type_size: 0,
        pixel_width: 0,
        pixel_height: 0,
        pixel_depth: 0,
        layer_count: 0,
        face_count: 0,
        level_count: 0,
        supercompression_scheme: 0,
        dfd_byte_offset: 0,
        dfd_byte_length: 0,
        kvd_byte_offset: 0,
        kvd_byte_length: 0,
        sgd_byte_offset: 0,
        sgd_byte_length: 0,
        levels: Seq::empty(),
    }
}

impl KTX2 {
    /// An empty container: the KTX2 identifier, every header field zero, no
    /// levels.
    pub fn new() -> (r: KTX2)
        ensures
            r@ == empty_view(),
    {
        let r = KTX2 { header: KTX2Header::default(), levels: Vec::new() };
        assert(r@.levels =~= Seq::<Seq<u8>>::empty());
        assert(r@ =~= empty_view());
        r
    }

    /// Sets the pixel width.
    pub fn width(self, width: u32) -> (r: KTX2)
        ensures
            r@ == (Ktx2View { pixel_width: width, ..self@ }),
    {
        let mut k = self;
        k.header.pixel_width = width;
        k
    }

    /// Sets the pixel height.
    pub fn height(self, height: u32) -> (r: KTX2)
        ensures
            r@ == (Ktx2View { pixel_height: height, ..self@ }),
    {
        let mut k = self;
        k.header.pixel_height = height;
        k
    }

    /// Sets the number of mip levels the header declares.
    pub fn levels(self, levels: u32) -> (r: KTX2)
        ensures
            r@ == (Ktx2View { level_count: levels, ..self@ }),
    {
        let mut k = self;
        k.header.level_count = levels;
        k
    }

    /// Sets the Vulkan pixel format.
    pub fn vk_format(self, vk_format: u32) -> (r: KTX2)
        ensures
            r@ == (Ktx2View { vk_format: vk_format, ..self@ }),
    {
        let mut k = self;
        k.header.vk_format = vk_format;
        k
    }

    /// Sets the number of faces (6 for a cubemap).
    pub fn face_count(self, face_count: u32) -> (r: KTX2)
        ensures
            r@ == (Ktx2View { face_count: face_count, ..self@ }),
    {
        let mut k = self;
        k.header.face_count = face_count;
        k
    }

    /// Appends a copy of `level_data` as the next (smaller) mip level.
    pub fn add_level(self, level_data: &[u8]) -> (r: KTX2)
        ensures
            r@ == (Ktx2View { levels: self@.levels.push(level_data@), ..self@ }),
    {
        let mut k = self;
        let mut copy: Vec<u8> = Vec::new();
        push_all(&mut copy, level_data);
        assert(copy@ =~= level_data@);
        k.levels.push(copy);
        assert(k@.levels =~= self@.levels.push(level_data@));
        k
    }

    /// Appends the serialised container: header, level index, a zero
    /// descriptor total size, then each level's bytes in order.
    #[verifier::spinoff_prover]
    pub fn write(&self, out: &mut Vec<u8>)
        requires
            data_offset(self@) + total_len(self@.levels) <= u64::MAX,
        ensures
            final(out)@ == old(out)@ + ktx2_bytes(self@),
    {
        let ghost m = self@;
        let ghost start = out@;
        self.header.write(out);
        assert(header_bytes(self.header.model(Seq::empty())) == header_bytes(m));
        let mut offset: u64 = HEADER_SIZE + 4 + 24 * (self.header.level_count as u64);
        let mut i: usize = 0;
        assert(m.levels.take(0) =~= Seq::<Seq<u8>>::empty());
        while i < self.levels.len()
            invariant
                m == self@,
                i <= m.levels.len(),
                m.levels.len() == self.levels@.len(),
                data_offset(m) + total_len(m.levels) <= u64::MAX,
                offset == data_offset(m) + total_len(m.levels.take(i as int)),
                out@ == start + header_bytes(m) + level_index(m.levels.take(i as int), data_offset(m)),
            decreases self.levels@.len() - i,
        {
            let len = self.levels[i].len() as u64;
            let ghost pre = out@;
            push_u64(out, offset);
            push_u64(out, len);
            push_u64(out, len);
            proof {
                let t = m.levels.take(i + 1);
                assert(t.drop_last() =~= m.levels.take(i as int));
                assert(t.last() == m.levels[i as int]);
                lemma_total_len_take(m.levels, i + 1);
                assert(out@ =~= pre + index_entry(offset as int, len as int));
            }
            offset = offset + len;
            i = i + 1;
        }
        assert(m.levels.take(i as int) =~= m.levels);
        push_u32(out, 0);
        let ghost mid = out@;
        let mut j: usize = 0;
        assert(m.levels.take(0) =~= Seq::<Seq<u8>>::empty());
        assert(mid =~= mid + concat_levels(m.levels.take(0)));
        while j < self.levels.len()
            invariant
                m == self@,
                j <= m.levels.len(),
                m.levels.len() == self.levels@.len(),
                out@ == mid + concat_levels(m.levels.take(j as int)),
            decreases self.levels@.len() - j,
        {
            push_all(out, self.levels[j].as_slice());
            proof {
                let t = m.levels.take(j + 1);
                assert(t.drop_last() =~= m.levels.take(j as int));
                assert(t.last() == m.levels[j as int]);
            }
            j = j + 1;
        }
        assert(m.levels.take(j as int) =~= m.levels);
        assert(out@ =~= start + ktx2_bytes(m));
    }
}

/// A prefix of the levels is no longer in total than all of them.
proof fn lemma_total_len_take(s: Seq<Seq<u8>>, n: int)
    requires
        0 <= n <= s.len(),
    ensures
        total_len(s.take(n)) <= total_len(s),
    decreases s.len() - n,
{
    if n < s.len() {
        lemma_total_len_take(s, n + 1);
        assert(s.take(n + 1).drop_last() =~= s.take(n));
    } else {
        assert(s.take(n) =~= s);
    }
}

proof fn lemma_level_index_len(levels: Seq<Seq<u8>>, base: int)
    ensures
        level_index(levels, base).len() == 24 * levels.len(),
    decreases levels.len(),
{
    if levels.len() > 0 {
        lemma_level_index_len(levels.drop_last(), base);
    }
}

proof fn lemma_concat_levels_len(levels: Seq<Seq<u8>>)
    ensures
        concat_levels(levels).len() == total_len(levels),
    decreases levels.len(),
{
    if levels.len() > 0 {
        lemma_concat_levels_len(levels.drop_last());
    }
}

/// Shape of a serialised container: the 80-byte header, one 24-byte index
/// entry per level, the 4-byte descriptor total size, then exactly the
/// levels' bytes.
pub proof fn lemma_ktx2_size(m: Ktx2View)
    requires
        m.identifier.len() == 12,
    ensures
        ktx2_bytes(m).len() == HEADER_SIZE + 24 * m.levels.len() + 4 + total_len(m.levels),
        level_index(m.levels, data_offset(m)).len() == 24 * m.levels.len(),
        header_bytes(m).len() == HEADER_SIZE,
{
    lemma_level_index_len(m.levels, data_offset(m));
    lemma_concat_levels_len(m.levels);
    lemma_header_len(m);
}

proof fn lemma_header_len(m: Ktx2View)
    requires
        m.identifier.len() == 12,
    ensures
        header_bytes(m).len() == HEADER_SIZE,
{
    assert forall|v: u32| #[trigger] le32(v).len() == 4 by {}
    assert forall|v: u64| #[trigger] le64(v).len() == 8 by {}
}

proof fn lemma_level_index_entry(levels: Seq<Seq<u8>>, base: int, i: int)
    requires
        0 <= i < levels.len(),
    ensures
        level_index(levels, base).subrange(24 * i, 24 * i + 24) == index_entry(
            base + total_len(levels.take(i)),
            levels[i].len() as int,
        ),
    decreases levels.len(),
{
    let init = levels.drop_last();
    lemma_level_index_len(init, base);
    let e = index_entry(base + total_len(init), levels.last().len() as int);
    assert(e.len() == 24);
    if i == levels.len() - 1 {
        assert(levels.take(i) =~= init);
        assert(level_index(levels, base).subrange(24 * i, 24 * i + 24) =~= e);
    } else {
        lemma_level_index_entry(init, base, i);
        assert(init.take(i) =~= levels.take(i));
        assert(level_index(levels, base).subrange(24 * i, 24 * i + 24) =~= level_index(
            init,
            base,
        ).subrange(24 * i, 24 * i + 24));
    }
}

/// Layout of a serialised container: the header (level count at byte 40),
/// then level `i`'s index entry at `80 + 24 * i` giving its offset (the data
/// offset plus the lengths of the levels before it), its length and its
/// uncompressed length, then a zero descriptor total size, then the levels'
/// bytes, one after the other.
pub proof fn lemma_ktx2_layout(m: Ktx2View)
    requires
        m.identifier.len() == 12,
    ensures
        ({
            let b = ktx2_bytes(m);
            let n = m.levels.len() as int;
            &&& b.subrange(0, 80) == header_bytes(m)
            &&& b.subrange(40, 44) == le32(m.level_count)
            &&& b.subrange(36, 40) == le32(m.face_count)
            &&& forall|i: int|
                0 <= i < n ==> #[trigger] b.subrange(80 + 24 * i, 104 + 24 * i) == index_entry(
                    data_offset(m) + total_len(m.levels.take(i)),
                    m.levels[i].len() as int,
                )
            &&& b.subrange(80 + 24 * n, 84 + 24 * n) == le32(0)
            &&& b.subrange(84 + 24 * n, b.len() as int) == concat_levels(m.levels)
        }),
{
    let b = ktx2_bytes(m);
    let n = m.levels.len() as int;
    let h = header_bytes(m);
    let li = level_index(m.levels, data_offset(m));
    lemma_header_len(m);
    lemma_level_index_len(m.levels, data_offset(m));
    assert(b.subrange(0, 80) =~= h);
    assert(h.subrange(40, 44) =~= le32(m.level_count));
    assert(h.subrange(36, 40) =~= le32(m.face_count));
    assert(b.subrange(40, 44) =~= h.subrange(40, 44));
    assert(b.subrange(36, 40) =~= h.subrange(36, 40));
    assert forall|i: int| 0 <= i < n implies #[trigger] b.subrange(80 + 24 * i, 104 + 24 * i)
        == index_entry(data_offset(m) + total_len(m.levels.take(i)), m.levels[i].len() as int) by {
        lemma_level_index_entry(m.levels, data_offset(m), i);
        assert(b.subrange(80 + 24 * i, 104 + 24 * i) =~= li.subrange(24 * i, 24 * i + 24));
    }
    assert(b.subrange(80 + 24 * n, 84 + 24 * n) =~= le32(0));
    assert(b.subrange(84 + 24 * n, b.len() as int) =~= concat_levels(m.levels));
}

/// Every builder carries a twelve-byte identifier, so the layout lemmas apply
/// to what any builder writes.
pub proof fn lemma_builder_identifier(k: &KTX2)
    ensures
        k@.identifier.len() == 12,
{
}

/// Serialising the same builder twice gives the same bytes: the output of
/// `write` depends on the builder's contents alone.
pub proof fn lemma_write_deterministic(a: KTX2, b: KTX2, out_a: Seq<u8>, out_b: Seq<u8>)
    requires
        a@ == b@,
        out_a == ktx2_bytes(a@),
        out_b == ktx2_bytes(b@),
    ensures
        out_a == out_b,
{
}

} // verus!
