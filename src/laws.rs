//! Properties of decoding, encoding and recompression, proved over the
//! models that the functions' contracts use.
use crate::bundle::{
    cstr_of, Header, PAYLOAD_ALIGNED, blocks_at, blocks_info_bytes, blocks_info_start, dir_bytes, dirs_at, dirs_bytes, decoded,
    encoded, header_at, header_bytes, lzma_flags, prefix_bytes, tables_of, unity_tag,
    unsized_bytes, with_lzma_blocks, BlockInfo, BundleModel, DirModel, BLOCKS_INFO_AT_END,
    HASH_LEN,
};
use crate::codec::{codec_of, compressed, decompressed};
use crate::error::Failure;
use crate::stream::{
    align16, pad16, zeros,
    be16_bytes, be32_at, be32_bytes, be64_bytes, bytes_at, cstr_at, nul_from,
    text_of, u16_at, u32_at, u64_at,
};
use vstd::utf8::{encode_utf8, encode_utf8_decode_utf8, encode_utf8_valid_utf8};
use vstd::prelude::*;

verus! {

/// Setting every block's codec to LZMA twice gives what setting it once gives.
pub proof fn lemma_set_blocks_lzma_idempotent(m: BundleModel)
    ensures
        with_lzma_blocks(with_lzma_blocks(m)) == with_lzma_blocks(m),
{
    assert forall|f: u16| #[trigger] lzma_flags(lzma_flags(f)) == lzma_flags(f) by {
        assert(((((f & !0x3Fu16) | 1) & !0x3Fu16) | 1) == ((f & !0x3Fu16) | 1)) by (bit_vector);
    }
    assert(with_lzma_blocks(with_lzma_blocks(m)).blocks =~= with_lzma_blocks(m).blocks);
}

/// With the pass-through codec (a selector that is none of LZMA, LZ4, LZ4HC
/// and Zstd), compressing keeps the bytes and decompressing gives them back.
pub proof fn lemma_passthrough_round_trip(flags: u32, data: Seq<u8>, size: u32)
    requires
        codec_of(flags) != 1,
        codec_of(flags) != 2,
        codec_of(flags) != 3,
        codec_of(flags) != 4,
    ensures
        compressed(flags, data) == Ok::<Seq<u8>, Failure>(data),
        decompressed(flags, data, size) == Ok::<Seq<u8>, Failure>(data),
{
}

/// Bytes that hold a NUL-terminated first string other than the format tag
/// are refused as an unsupported bundle, whatever follows.
pub proof fn lemma_signature_rejected(s: Seq<u8>)
    requires
        nul_from(s, 0) >= 0,
        s.subrange(0, nul_from(s, 0) + 1) != unity_tag().push(0),
    ensures
        decoded(s) matches Err(Failure::UnsupportedBundle(_)),
{
    reveal(decoded);
    let e = nul_from(s, 0);
    lemma_nul_from_is_zero(s, 0);
    if s.subrange(0, e) == unity_tag() {
        assert(s.subrange(0, e + 1) =~= unity_tag().push(0));
    }
}

proof fn lemma_nul_from_is_zero(s: Seq<u8>, p: int)
    requires
        nul_from(s, p) >= 0,
    ensures
        p <= nul_from(s, p) < s.len(),
        s[nul_from(s, p)] == 0,
    decreases s.len() - p,
{
    if p >= 0 && p < s.len() && s[p] != 0 {
        lemma_nul_from_is_zero(s, p + 1);
    }
}

/// A bundle whose blocks-info segment lists a number of blocks other than one
/// is refused for that, whatever its payload holds.
pub proof fn lemma_block_count_rejected(s: Seq<u8>)
    requires
        header_at(s) is Ok,
        ({
            let (h, p) = header_at(s)->Ok_0;
            match blocks_info_start(h, p, s.len() as int) {
                None => false,
                Some(pos2) => match bytes_at(s, pos2, h.compressed_block_info_size as int) {
                    None => false,
                    Some((raw, _)) => match decompressed(
                        h.flags,
                        raw,
                        h.uncompressed_block_info_size,
                    ) {
                        Err(_) => false,
                        Ok(info) => match tables_of(info) {
                            Err(_) => false,
                            Ok((bs, _)) => bs.len() != 1,
                        },
                    },
                },
            }
        }),
    ensures
        decoded(s) == Err::<BundleModel, Failure>(Failure::MoreThanOneBlock),
{
    reveal(decoded);
}

/// What `encoded` gives, written out.
proof fn lemma_encoded_shape(m: BundleModel)
    ensures
        encoded(m) is Ok <==> (m.blocks.len() == 1 && compressed(m.blocks[0].flags as u32, m.block) is Ok
            && compressed(
            m.flags,
            blocks_info_bytes(m, compressed(m.blocks[0].flags as u32, m.block)->Ok_0),
        ) is Ok),
        encoded(m) is Ok ==> ({
            let packed = compressed(m.blocks[0].flags as u32, m.block)->Ok_0;
            let info = blocks_info_bytes(m, packed);
            let b = unsized_bytes(m, info, compressed(m.flags, info)->Ok_0, packed);
            let at = header_bytes(m).len() as int;
            encoded(m)->Ok_0 == b.subrange(0, at) + be64_bytes(b.len() as u64) + b.subrange(
                at + 8,
                b.len() as int,
            )
        }),
{
    reveal(encoded);
}

/// From version 7 on, the blocks-info segment of an encoded bundle starts at
/// a multiple of 16, right after the header fields and their padding.
#[verifier::rlimit(100)]
pub proof fn lemma_encoded_blocks_info_aligned(m: BundleModel)
    requires
        m.version >= 7,
        encoded(m) is Ok,
    ensures
        ({
            let packed = compressed(m.blocks[0].flags as u32, m.block)->Ok_0;
            let info = blocks_info_bytes(m, packed);
            let packed_info = compressed(m.flags, info)->Ok_0;
            let start = prefix_bytes(m, info, packed_info).len() as int;
            let out = encoded(m)->Ok_0;
            &&& start % 16 == 0
            &&& header_bytes(m).len() + 8 <= start
            &&& out.subrange(start, start + packed_info.len()) == packed_info
        }),
{
    lemma_encoded_shape(m);
    let packed = compressed(m.blocks[0].flags as u32, m.block)->Ok_0;
    let info = blocks_info_bytes(m, packed);
    let packed_info = compressed(m.flags, info)->Ok_0;
    let pre = prefix_bytes(m, info, packed_info);
    let b = unsized_bytes(m, info, packed_info, packed);
    let at = header_bytes(m).len() as int;
    let start = pre.len() as int;
    let end = start + packed_info.len();
    assert(pre.subrange(0, at + 8) == (header_bytes(m) + be64_bytes(0)).subrange(0, at + 8));
    assert(b.subrange(start, end) =~= packed_info);
    lemma_patched_tail(b, at, b.len() as u64, start, end);
}

/// Writing eight bytes at `at` leaves every range after them as it was.
proof fn lemma_patched_tail(b: Seq<u8>, at: int, v: u64, x: int, y: int)
    requires
        0 <= at,
        at + 8 <= x <= y <= b.len(),
    ensures
        (b.subrange(0, at) + be64_bytes(v) + b.subrange(at + 8, b.len() as int)).subrange(x, y)
            == b.subrange(x, y),
{
    assert((b.subrange(0, at) + be64_bytes(v) + b.subrange(at + 8, b.len() as int)).subrange(x, y)
        =~= b.subrange(x, y));
}

/// From version 7 on, a decoder that finds the blocks-info segment after the
/// header looks for it at a multiple of 16, or at the end of a shorter source.
pub proof fn lemma_decoded_blocks_info_aligned(s: Seq<u8>)
    requires
        header_at(s) is Ok,
        header_at(s)->Ok_0.0.version >= 7,
        header_at(s)->Ok_0.0.flags & BLOCKS_INFO_AT_END == 0,
    ensures
        ({
            let (h, p) = header_at(s)->Ok_0;
            let q = blocks_info_start(h, p, s.len() as int)->Some_0;
            q % 16 == 0 || q == s.len()
        }),
{
}

/// Whether the UTF-8 bytes of `t` hold no zero byte, so that `t` can be
/// written as a NUL-terminated string.
pub open spec fn nul_free(t: Seq<char>) -> bool {
    forall|k: int| 0 <= k < encode_utf8(t).len() ==> encode_utf8(t)[k] != 0
}

proof fn lemma_u16_in(s: Seq<u8>, p: int, v: u16)
    requires
        0 <= p,
        p + 2 <= s.len(),
        s.subrange(p, p + 2) == be16_bytes(v),
    ensures
        u16_at(s, p) == Some((v, p + 2)),
{
    assert(s[p] == s.subrange(p, p + 2)[0]);
    assert(s[p + 1] == s.subrange(p, p + 2)[1]);
}

proof fn lemma_u32_in(s: Seq<u8>, p: int, v: u32)
    requires
        0 <= p,
        p + 4 <= s.len(),
        s.subrange(p, p + 4) == be32_bytes(v),
    ensures
        u32_at(s, p) == Some((v, p + 4)),
{
    assert(s[p] == s.subrange(p, p + 4)[0]);
    assert(s[p + 1] == s.subrange(p, p + 4)[1]);
    assert(s[p + 2] == s.subrange(p, p + 4)[2]);
    assert(s[p + 3] == s.subrange(p, p + 4)[3]);
}

proof fn lemma_u64_in(s: Seq<u8>, p: int, v: u64)
    requires
        0 <= p,
        p + 8 <= s.len(),
        s.subrange(p, p + 8) == be64_bytes(v),
    ensures
        u64_at(s, p) == Some((v, p + 8)),
{
    let hi = (v / 0x1_0000_0000) as u32;
    let lo = (v % 0x1_0000_0000) as u32;
    assert(s.subrange(p, p + 4) =~= s.subrange(p, p + 8).subrange(0, 4));
    assert(s.subrange(p + 4, p + 8) =~= s.subrange(p, p + 8).subrange(4, 8));
    assert(be64_bytes(v).subrange(0, 4) =~= be32_bytes(hi));
    assert(be64_bytes(v).subrange(4, 8) =~= be32_bytes(lo));
    lemma_u32_in(s, p, hi);
    lemma_u32_in(s, p + 4, lo);
}

proof fn lemma_nul_free_run(s: Seq<u8>, p: int, b: Seq<u8>, k: int)
    requires
        0 <= p,
        0 <= k <= b.len(),
        p + b.len() + 1 <= s.len(),
        s.subrange(p, p + b.len() + 1) == b.push(0),
        forall|i: int| 0 <= i < b.len() ==> b[i] != 0,
    ensures
        nul_from(s, p + k) == p + b.len(),
    decreases b.len() - k,
{
    assert(s[p + k] == s.subrange(p, p + b.len() + 1)[k]);
    if k < b.len() {
        lemma_nul_free_run(s, p, b, k + 1);
    }
}

proof fn lemma_cstr_in(s: Seq<u8>, p: int, t: Seq<char>)
    requires
        0 <= p,
        p + encode_utf8(t).len() + 1 <= s.len(),
        s.subrange(p, p + encode_utf8(t).len() + 1) == encode_utf8(t).push(0),
        nul_free(t),
    ensures
        cstr_at(s, p) == Some((encode_utf8(t), p + encode_utf8(t).len() + 1)),
        text_of(encode_utf8(t)) == t,
{
    let b = encode_utf8(t);
    lemma_nul_free_run(s, p, b, 0);
    assert(s.subrange(p, p + b.len()) =~= s.subrange(p, p + b.len() + 1).subrange(0, b.len() as int));
    assert(s.subrange(p, p + b.len()) =~= b);
    encode_utf8_valid_utf8(t);
    encode_utf8_decode_utf8(t);
}

/// A range inside a piece that `s` holds at `q` is that range of `s`.
proof fn lemma_slice(s: Seq<u8>, q: int, d: Seq<u8>, a: int, b: int)
    requires
        0 <= q,
        q + d.len() <= s.len(),
        s.subrange(q, q + d.len()) == d,
        0 <= a <= b <= d.len(),
    ensures
        s.subrange(q + a, q + b) == d.subrange(a, b),
{
    assert(s.subrange(q + a, q + b) =~= s.subrange(q, q + d.len()).subrange(a, b));
}

/// The written directory entries read back as they were.
#[verifier::rlimit(100)]
proof fn lemma_dirs_in(s: Seq<u8>, p: int, ds: Seq<DirModel>)
    requires
        0 <= p,
        p + dirs_bytes(ds).len() <= s.len(),
        s.subrange(p, p + dirs_bytes(ds).len()) == dirs_bytes(ds),
        forall|k: int| 0 <= k < ds.len() ==> nul_free(#[trigger] ds[k].path),
    ensures
        dirs_at(s, p, ds.len()) == Some((ds, p + dirs_bytes(ds).len())),
    decreases ds.len(),
{
    if ds.len() > 0 {
        let init = ds.drop_last();
        let d = ds.last();
        let all = dirs_bytes(ds);
        let q = p + dirs_bytes(init).len();
        let db = dir_bytes(d);
        let e = encode_utf8(d.path);
        assert(all == dirs_bytes(init) + db);
        lemma_slice(s, p, all, 0, dirs_bytes(init).len() as int);
        assert(all.subrange(0, dirs_bytes(init).len() as int) =~= dirs_bytes(init));
        assert forall|k: int| 0 <= k < init.len() implies nul_free(#[trigger] init[k].path) by {
            assert(init[k] == ds[k]);
        }
        lemma_dirs_in(s, p, init);
        lemma_slice(s, p, all, dirs_bytes(init).len() as int, all.len() as int);
        assert(all.subrange(dirs_bytes(init).len() as int, all.len() as int) =~= db);
        assert(nul_free(ds[ds.len() - 1].path));
        lemma_slice(s, q, db, 0, 8);
        assert(db.subrange(0, 8) =~= be64_bytes(d.offset));
        lemma_u64_in(s, q, d.offset);
        lemma_slice(s, q, db, 8, 16);
        assert(db.subrange(8, 16) =~= be64_bytes(d.size));
        lemma_u64_in(s, q + 8, d.size);
        lemma_slice(s, q, db, 16, 20);
        assert(db.subrange(16, 20) =~= be32_bytes(d.flags));
        lemma_u32_in(s, q + 16, d.flags);
        lemma_slice(s, q, db, 20, db.len() as int);
        assert(db.subrange(20, db.len() as int) =~= e.push(0));
        lemma_cstr_in(s, q + 20, d.path);
        assert(init.push(d) =~= ds);
    }
}

/// The fixed fields of a written blocks-info segment read back as written.
proof fn lemma_info_fields(a: u32, c: u32, f: u16, n: u32, d: Seq<u8>)
    ensures
        ({
            let info = zeros(HASH_LEN as nat) + be32_bytes(1) + be32_bytes(a) + be32_bytes(c)
                + be16_bytes(f) + be32_bytes(n) + d;
            &&& u32_at(info, 16) == Some((1u32, 20int))
            &&& u32_at(info, 20) == Some((a, 24int))
            &&& u32_at(info, 24) == Some((c, 28int))
            &&& u16_at(info, 28) == Some((f, 30int))
            &&& u32_at(info, 30) == Some((n, 34int))
            &&& info.len() == 34 + d.len()
            &&& info.subrange(34, info.len() as int) == d
        }),
{
    let info = zeros(HASH_LEN as nat) + be32_bytes(1) + be32_bytes(a) + be32_bytes(c) + be16_bytes(
        f,
    ) + be32_bytes(n) + d;
    assert(info.subrange(16, 20) =~= be32_bytes(1));
    lemma_u32_in(info, 16, 1);
    assert(info.subrange(20, 24) =~= be32_bytes(a));
    lemma_u32_in(info, 20, a);
    assert(info.subrange(24, 28) =~= be32_bytes(c));
    lemma_u32_in(info, 24, c);
    assert(info.subrange(28, 30) =~= be16_bytes(f));
    lemma_u16_in(info, 28, f);
    assert(info.subrange(30, 34) =~= be32_bytes(n));
    lemma_u32_in(info, 30, n);
    assert(info.subrange(34, info.len() as int) =~= d);
}

/// A written blocks-info segment reads back as one block record and the
/// directory.
#[verifier::rlimit(100)]
proof fn lemma_tables_in(m: BundleModel, packed: Seq<u8>)
    requires
        m.blocks.len() == 1,
        m.directory.len() <= u32::MAX,
        forall|k: int| 0 <= k < m.directory.len() ==> nul_free(#[trigger] m.directory[k].path),
    ensures
        tables_of(blocks_info_bytes(m, packed)) == Ok::<(Seq<BlockInfo>, Seq<DirModel>), Failure>(
            (
                seq![
                    BlockInfo {
                        uncompressed_size: m.block.len() as u32,
                        compressed_size: packed.len() as u32,
                        flags: m.blocks[0].flags,
                    },
                ],
                m.directory,
            ),
        ),
{
    let info = blocks_info_bytes(m, packed);
    let ds = dirs_bytes(m.directory);
    let rec = BlockInfo {
        uncompressed_size: m.block.len() as u32,
        compressed_size: packed.len() as u32,
        flags: m.blocks[0].flags,
    };
    lemma_info_fields(
        m.block.len() as u32,
        packed.len() as u32,
        m.blocks[0].flags,
        m.directory.len() as u32,
        ds,
    );
    lemma_dirs_in(info, 34, m.directory);
    assert(blocks_at(info, 20, 0) == Some((Seq::<BlockInfo>::empty(), 20int)));
    assert(seq![rec] =~= Seq::<BlockInfo>::empty().push(rec));
    assert(blocks_at(info, 20, 1) == Some((seq![rec], 30int)));
}

/// The header fields of an encoded bundle read back as written.
#[verifier::rlimit(100)]
proof fn lemma_header_in(m: BundleModel, out: Seq<u8>, b: Seq<u8>, fields: Seq<u8>)
    requires
        encode_utf8(m.signature) == unity_tag(),
        nul_free(m.unity_version),
        nul_free(m.unity_revision),
        fields.len() == 20,
        header_bytes(m).len() + 20 <= b.len(),
        b.subrange(0, header_bytes(m).len() + 20int) == header_bytes(m) + fields,
        out == b.subrange(0, header_bytes(m).len() as int) + be64_bytes(b.len() as u64)
            + b.subrange(header_bytes(m).len() + 8int, b.len() as int),
        fields.subrange(0, 8) == be64_bytes(0),
    ensures
        header_at(out) == Ok::<(Header, int), Failure>(
            (
                Header {
                    signature: unity_tag(),
                    version: m.version,
                    unity_version: encode_utf8(m.unity_version),
                    unity_revision: encode_utf8(m.unity_revision),
                    size: b.len() as u64,
                    compressed_block_info_size: be32_at(fields, 8),
                    uncompressed_block_info_size: be32_at(fields, 12),
                    flags: be32_at(fields, 16),
                },
                header_bytes(m).len() + 20int,
            ),
        ),
        text_of(unity_tag()) == m.signature,
        text_of(encode_utf8(m.unity_version)) == m.unity_version,
        text_of(encode_utf8(m.unity_revision)) == m.unity_revision,
{
    let h = header_bytes(m);
    let at = h.len() as int;
    let sig = encode_utf8(m.signature);
    let uv = encode_utf8(m.unity_version);
    let ur = encode_utf8(m.unity_revision);
    let l0 = sig.len() + 1int;
    let l1 = l0 + 4;
    let l2 = l1 + uv.len() + 1int;
    assert(out.len() == b.len());
    assert(out.subrange(0, at) =~= h) by {
        assert(out.subrange(0, at) =~= b.subrange(0, at));
        lemma_slice(b, 0, h + fields, 0, at);
        assert((h + fields).subrange(0, at) =~= h);
    }
    assert(nul_free(m.signature)) by {
        assert forall|k: int| 0 <= k < sig.len() implies sig[k] != 0 by {
            assert(unity_tag()[k] != 0);
        }
    }
    lemma_slice(out, 0, h, 0, l0);
    assert(h.subrange(0, l0) =~= cstr_of(m.signature));
    lemma_cstr_in(out, 0, m.signature);
    lemma_slice(out, 0, h, l0, l1);
    assert(h.subrange(l0, l1) =~= be32_bytes(m.version));
    lemma_u32_in(out, l0, m.version);
    lemma_slice(out, 0, h, l1, l2);
    assert(h.subrange(l1, l2) =~= cstr_of(m.unity_version));
    lemma_cstr_in(out, l1, m.unity_version);
    lemma_slice(out, 0, h, l2, at);
    assert(h.subrange(l2, at) =~= cstr_of(m.unity_revision));
    lemma_cstr_in(out, l2, m.unity_revision);
    assert(out.subrange(at, at + 8) =~= be64_bytes(b.len() as u64));
    lemma_u64_in(out, at, b.len() as u64);
    lemma_slice(b, 0, h + fields, at + 8, at + 20);
    lemma_patched_tail(b, at, b.len() as u64, at + 8, at + 20);
    let f = fields.subrange(8, 20);
    assert((h + fields).subrange(at + 8, at + 20) =~= f);
    assert(fields[8] == f[0] && fields[9] == f[1] && fields[10] == f[2] && fields[11] == f[3]);
    assert(fields[12] == f[4] && fields[13] == f[5] && fields[14] == f[6] && fields[15] == f[7]);
    assert(fields[16] == f[8] && fields[17] == f[9] && fields[18] == f[10] && fields[19] == f[11]);
    assert(out[at + 8] == f[0] && out[at + 9] == f[1] && out[at + 10] == f[2] && out[at + 11]
        == f[3]) by {
        assert(out.subrange(at + 8, at + 20)[0] == out[at + 8]);
    }
}

/// The block record that encoding writes for `m` when its payload
/// compresses to `packed`.
pub open spec fn written_block(m: BundleModel, packed: Seq<u8>) -> BlockInfo {
    BlockInfo {
        uncompressed_size: m.block.len() as u32,
        compressed_size: packed.len() as u32,
        flags: m.blocks[0].flags,
    }
}

/// Whether encoding `m` then decoding the result can give `m` back: one
/// block; the format tag as signature; strings without NUL; the blocks-info
/// segment not flagged as stored at the end (the encoder always writes it
/// after the header); both codecs give back what they compress; and every
/// length fits its 32-bit field.
pub open spec fn round_trips(m: BundleModel) -> bool {
    &&& m.blocks.len() == 1
    &&& encode_utf8(m.signature) == unity_tag()
    &&& nul_free(m.unity_version)
    &&& nul_free(m.unity_revision)
    &&& forall|k: int| 0 <= k < m.directory.len() ==> nul_free(#[trigger] m.directory[k].path)
    &&& m.flags & BLOCKS_INFO_AT_END == 0
    &&& m.block.len() <= u32::MAX
    &&& m.directory.len() <= u32::MAX
    &&& compressed(m.blocks[0].flags as u32, m.block) matches Ok(packed) && {
        let info = blocks_info_bytes(m, packed);
        &&& packed.len() <= u32::MAX
        &&& info.len() <= u32::MAX
        &&& decompressed(m.blocks[0].flags as u32, packed, m.block.len() as u32) == Ok::<
            Seq<u8>,
            Failure,
        >(m.block)
        &&& compressed(m.flags, info) matches Ok(packed_info) && {
            &&& packed_info.len() <= u32::MAX
            &&& decompressed(m.flags, packed_info, info.len() as u32) == Ok::<Seq<u8>, Failure>(
                info,
            )
        }
    }
}

/// Where each part of an encoded bundle lies and what reading it gives.
/// The header of an encoded bundle reads back as written.
#[verifier::rlimit(100)]
proof fn lemma_round_trip_header(
    m: BundleModel,
    packed: Seq<u8>,
    info: Seq<u8>,
    pi: Seq<u8>,
    out: Seq<u8>,
)
    requires
        encode_utf8(m.signature) == unity_tag(),
        nul_free(m.unity_version),
        nul_free(m.unity_revision),
        m.flags & BLOCKS_INFO_AT_END == 0,
        pi.len() <= u32::MAX,
        info.len() <= u32::MAX,
        ({
            let b = unsized_bytes(m, info, pi, packed);
            let at = header_bytes(m).len() as int;
            out == b.subrange(0, at) + be64_bytes(b.len() as u64) + b.subrange(at + 8, b.len() as int)
        }),
    ensures
        header_at(out) == Ok::<(Header, int), Failure>(
            (
                Header {
                    signature: unity_tag(),
                    version: m.version,
                    unity_version: encode_utf8(m.unity_version),
                    unity_revision: encode_utf8(m.unity_revision),
                    size: out.len() as u64,
                    compressed_block_info_size: pi.len() as u32,
                    uncompressed_block_info_size: info.len() as u32,
                    flags: m.flags,
                },
                header_bytes(m).len() + 20int,
            ),
        ),
        text_of(unity_tag()) == m.signature,
        text_of(encode_utf8(m.unity_version)) == m.unity_version,
        text_of(encode_utf8(m.unity_revision)) == m.unity_revision,
{
    let h = header_bytes(m);
    let at = h.len() as int;
    let fields = be64_bytes(0) + be32_bytes(pi.len() as u32) + be32_bytes(info.len() as u32)
        + be32_bytes(m.flags);
    let v7 = m.version >= 7;
    let al = m.flags & PAYLOAD_ALIGNED != 0;
    let pre = prefix_bytes(m, info, pi);
    let b = unsized_bytes(m, info, pi, packed);
    assert(pre == layout_prefix(h, fields, v7)) by {
        assert(h + be64_bytes(0) + be32_bytes(pi.len() as u32) + be32_bytes(info.len() as u32)
            + be32_bytes(m.flags) =~= h + fields);
    }
    assert(b == layout(h, fields, pi, packed, v7, al));
    lemma_layout(h, fields, pi, packed, v7, al);
    assert(fields.subrange(0, 8) =~= be64_bytes(0));
    assert(fields.subrange(8, 12) =~= be32_bytes(pi.len() as u32));
    assert(fields.subrange(12, 16) =~= be32_bytes(info.len() as u32));
    assert(fields.subrange(16, 20) =~= be32_bytes(m.flags));
    lemma_u32_in(fields, 8, pi.len() as u32);
    lemma_u32_in(fields, 12, info.len() as u32);
    lemma_u32_in(fields, 16, m.flags);
    lemma_header_in(m, out, b, fields);
}

/// The blocks-info segment and the payload of an encoded bundle lie where
/// decoding looks for them.
#[verifier::rlimit(100)]
proof fn lemma_round_trip_segments(
    m: BundleModel,
    packed: Seq<u8>,
    info: Seq<u8>,
    pi: Seq<u8>,
    out: Seq<u8>,
)
    requires
        encode_utf8(m.signature) == unity_tag(),
        nul_free(m.unity_version),
        nul_free(m.unity_revision),
        m.flags & BLOCKS_INFO_AT_END == 0,
        pi.len() <= u32::MAX,
        info.len() <= u32::MAX,
        ({
            let b = unsized_bytes(m, info, pi, packed);
            let at = header_bytes(m).len() as int;
            out == b.subrange(0, at) + be64_bytes(b.len() as u64) + b.subrange(at + 8, b.len() as int)
        }),
    ensures
        ({
            let at = header_bytes(m).len() as int;
            let pre = prefix_bytes(m, info, pi);
            let b3len = (pre.len() + pi.len()) as int;
            let b4len = if m.flags & PAYLOAD_ALIGNED != 0 {
                align16(b3len)
            } else {
                b3len
            };
            &&& (if m.flags & BLOCKS_INFO_AT_END != 0 {
                None
            } else if m.version >= 7 {
                Some(crate::stream::align16_within(at + 20, out.len() as int))
            } else {
                Some(at + 20)
            }) == Some(pre.len() as int)
            &&& bytes_at(out, pre.len() as int, pi.len() as int) == Some((pi, b3len))
            &&& (if m.flags & PAYLOAD_ALIGNED != 0 {
                crate::stream::align16_within(b3len, out.len() as int)
            } else {
                b3len
            }) == b4len
            &&& bytes_at(out, b4len, packed.len() as int) == Some((packed, out.len() as int))
        }),
{
    let h = header_bytes(m);
    let at = h.len() as int;
    let fields = be64_bytes(0) + be32_bytes(pi.len() as u32) + be32_bytes(info.len() as u32)
        + be32_bytes(m.flags);
    let v7 = m.version >= 7;
    let al = m.flags & PAYLOAD_ALIGNED != 0;
    let pre = prefix_bytes(m, info, pi);
    let b = unsized_bytes(m, info, pi, packed);
    assert(pre == layout_prefix(h, fields, v7)) by {
        assert(h + be64_bytes(0) + be32_bytes(pi.len() as u32) + be32_bytes(info.len() as u32)
            + be32_bytes(m.flags) =~= h + fields);
    }
    assert(b == layout(h, fields, pi, packed, v7, al));
    lemma_layout(h, fields, pi, packed, v7, al);
    let b3len = (pre.len() + pi.len()) as int;
    let b4len = if al {
        align16(b3len)
    } else {
        b3len
    };
    lemma_patched_tail(b, at, b.len() as u64, pre.len() as int, b3len);
    lemma_patched_tail(b, at, b.len() as u64, b4len, b.len() as int);
}

/// The bundle up to the blocks-info segment: header, fields, padding.
spec fn layout_prefix(h: Seq<u8>, fields: Seq<u8>, v7: bool) -> Seq<u8> {
    if v7 {
        pad16(h + fields)
    } else {
        h + fields
    }
}

/// The whole bundle before its size is filled in.
spec fn layout(h: Seq<u8>, fields: Seq<u8>, pi: Seq<u8>, packed: Seq<u8>, v7: bool, al: bool) -> Seq<
    u8,
> {
    let b3 = layout_prefix(h, fields, v7) + pi;
    (if al {
        pad16(b3)
    } else {
        b3
    }) + packed
}

proof fn lemma_layout(h: Seq<u8>, fields: Seq<u8>, pi: Seq<u8>, packed: Seq<u8>, v7: bool, al: bool)
    requires
        fields.len() == 20,
    ensures
        ({
            let pre = layout_prefix(h, fields, v7);
            let b = layout(h, fields, pi, packed, v7, al);
            let b3len = (pre.len() + pi.len()) as int;
            let b4len = if al {
                align16(b3len)
            } else {
                b3len
            };
            &&& h.len() + 20 <= pre.len()
            &&& pre.len() == if v7 {
                align16(h.len() + 20int)
            } else {
                h.len() + 20int
            }
            &&& b.subrange(0, h.len() + 20int) == h + fields
            &&& b3len <= b4len
            &&& b4len + packed.len() == b.len()
            &&& b.subrange(pre.len() as int, b3len) == pi
            &&& b.subrange(b4len, b.len() as int) == packed
        }),
{
    let pre = layout_prefix(h, fields, v7);
    let b3 = pre + pi;
    let b = layout(h, fields, pi, packed, v7, al);
    assert(b.subrange(0, h.len() + 20int) =~= h + fields);
    assert(b.subrange(pre.len() as int, b3.len() as int) =~= pi);
    let b4 = if al {
        pad16(b3)
    } else {
        b3
    };
    assert(b == b4 + packed);
    assert(b.subrange(b4.len() as int, b.len() as int) =~= packed);
}

/// Encoding a bundle and decoding the bytes gives the same header, flags,
/// directory and payload; only the fields that encoding recomputes (the total
/// size, the blocks-info sizes and the block's compressed size) are new.
#[verifier::rlimit(100)]
pub proof fn lemma_round_trip(m: BundleModel)
    requires
        round_trips(m),
    ensures
        encoded(m) is Ok,
        ({
            let packed = compressed(m.blocks[0].flags as u32, m.block)->Ok_0;
            let info = blocks_info_bytes(m, packed);
            let packed_info = compressed(m.flags, info)->Ok_0;
            let out = encoded(m)->Ok_0;
            decoded(out) == Ok::<BundleModel, Failure>(
                BundleModel {
                    size: out.len() as u64,
                    compressed_block_info_size: packed_info.len() as u32,
                    uncompressed_block_info_size: info.len() as u32,
                    blocks: seq![written_block(m, packed)],
                    ..m
                },
            )
        }),
{
    reveal(decoded);
    lemma_encoded_shape(m);
    let packed = compressed(m.blocks[0].flags as u32, m.block)->Ok_0;
    let info = blocks_info_bytes(m, packed);
    let pi = compressed(m.flags, info)->Ok_0;
    let out = encoded(m)->Ok_0;
    lemma_round_trip_header(m, packed, info, pi, out);
    lemma_round_trip_segments(m, packed, info, pi, out);
    lemma_tables_in(m, packed);
    let bs = seq![written_block(m, packed)];
    assert(bs[0] == written_block(m, packed));
    assert(decompressed(m.flags, pi, info.len() as u32) == Ok::<Seq<u8>, Failure>(info));
    assert(decompressed(bs[0].flags as u32, packed, bs[0].uncompressed_size) == Ok::<
        Seq<u8>,
        Failure,
    >(m.block));
}

/// With pass-through codecs (selectors that are none of LZMA, LZ4, LZ4HC and
/// Zstd) for the payload and the blocks-info segment, the codecs give back
/// what they store, so the round trip needs only the other conditions.
pub proof fn lemma_round_trip_passthrough(m: BundleModel)
    requires
        m.blocks.len() == 1,
        encode_utf8(m.signature) == unity_tag(),
        nul_free(m.unity_version),
        nul_free(m.unity_revision),
        forall|k: int| 0 <= k < m.directory.len() ==> nul_free(#[trigger] m.directory[k].path),
        m.flags & BLOCKS_INFO_AT_END == 0,
        m.block.len() <= u32::MAX,
        m.directory.len() <= u32::MAX,
        blocks_info_bytes(m, m.block).len() <= u32::MAX,
        codec_of(m.flags) > 4 || codec_of(m.flags) == 0,
        codec_of(m.blocks[0].flags as u32) > 4 || codec_of(m.blocks[0].flags as u32) == 0,
    ensures
        round_trips(m),
{
    lemma_passthrough_round_trip(m.blocks[0].flags as u32, m.block, m.block.len() as u32);
    let info = blocks_info_bytes(m, m.block);
    lemma_passthrough_round_trip(m.flags, info, info.len() as u32);
}

} // verus!
