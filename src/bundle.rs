//! The bundle: its in-memory form, the layout that decoding reads, and the
//! bytes that encoding writes.
use crate::codec::{compress, compressed, decompress, decompressed};
use crate::error::{BundleError, Failure};
use crate::stream::{
    align16_within, be16_bytes, be32_bytes, be64_bytes, bytes_at, cstr_at, pad16, patch_u64,
    push_bytes, push_cstr, push_pad16, push_u16, push_u32, push_u64, skip_within,
    string_from_bytes, text_of, u16_at, u32_at, u64_at, zeros, ByteReader,
};
use vstd::prelude::*;
use vstd::utf8::encode_utf8;

verus! {

/// One compressed block of the payload.
#[derive(Clone, Copy, Debug, PartialEq, Eq, Structural)]
pub struct BlockInfo {
    pub uncompressed_size: u32,
    pub compressed_size: u32,
    /// The low six bits select the block's codec.
    pub flags: u16,
}

/// One virtual file: a byte range of the decompressed payload and its path.
#[derive(Debug)]
pub struct DirectoryInfo {
    pub offset: u64,
    pub size: u64,
    pub flags: u32,
    pub path: String,
}

/// A decoded bundle.
#[derive(Debug)]
pub struct AssetBundle {
    pub signature: String,
    pub version: u32,
    pub unity_version: String,
    pub unity_revision: String,
    pub size: u64,
    pub compressed_block_info_size: u32,
    pub uncompressed_block_info_size: u32,
    /// The low six bits select the blocks-info codec; bit 0x80 puts the
    /// blocks-info segment at the end; bit 0x200 aligns the payload to 16.
    pub flags: u32,
    pub blocks_info: Vec<BlockInfo>,
    pub directory_info: Vec<DirectoryInfo>,
    /// The decompressed payload.
    pub block: Vec<u8>,
}

/// The value of a [`DirectoryInfo`].
pub struct DirModel {
    pub offset: u64,
    pub size: u64,
    pub flags: u32,
    pub path: Seq<char>,
}

/// The value of an [`AssetBundle`].
pub struct BundleModel {
    pub signature: Seq<char>,
    pub version: u32,
    pub unity_version: Seq<char>,
    pub unity_revision: Seq<char>,
    pub size: u64,
    pub compressed_block_info_size: u32,
    pub uncompressed_block_info_size: u32,
    pub flags: u32,
    pub blocks: Seq<BlockInfo>,
    pub directory: Seq<DirModel>,
    pub block: Seq<u8>,
}

impl View for DirectoryInfo {
    type V = DirModel;

    open spec fn view(&self) -> DirModel {
        DirModel { offset: self.offset, size: self.size, flags: self.flags, path: self.path@ }
    }
}

impl View for AssetBundle {
    type V = BundleModel;

    open spec fn view(&self) -> BundleModel {
        BundleModel {
            signature: self.signature@,
            version: self.version,
            unity_version: self.unity_version@,
            unity_revision: self.unity_revision@,
            size: self.size,
            compressed_block_info_size: self.compressed_block_info_size,
            uncompressed_block_info_size: self.uncompressed_block_info_size,
            flags: self.flags,
            blocks: self.blocks_info@,
            directory: dir_models(self.directory_info@),
            block: self.block@,
        }
    }
}

pub open spec fn dir_models(ds: Seq<DirectoryInfo>) -> Seq<DirModel> {
    ds.map_values(|d: DirectoryInfo| d@)
}

/// Block flags with the codec selector set to LZMA, other bits kept.
pub open spec fn lzma_flags(f: u16) -> u16 {
    (f & !0x3Fu16) | 1
}

/// `m` with every block's codec selector set to LZMA.
pub open spec fn with_lzma_blocks(m: BundleModel) -> BundleModel {
    BundleModel {
        blocks: m.blocks.map_values(
            |b: BlockInfo|
                BlockInfo {
                    uncompressed_size: b.uncompressed_size,
                    compressed_size: b.compressed_size,
                    flags: lzma_flags(b.flags),
                },
        ),
        ..m
    }
}

impl AssetBundle {
    /// Sets every block's codec selector to LZMA, so that encoding
    /// recompresses the payload with LZMA.
    pub fn set_blocks_lzma(&mut self)
        ensures
            final(self)@ == with_lzma_blocks(old(self)@),
    {
        let n = self.blocks_info.len();
        let mut i: usize = 0;
        while i < n
            invariant
                i <= n,
                n == self.blocks_info@.len(),
                n == old(self).blocks_info@.len(),
                forall|k: int|
                    0 <= k < i ==> self.blocks_info@[k] == (BlockInfo {
                        flags: lzma_flags(old(self).blocks_info@[k].flags),
                        ..old(self).blocks_info@[k]
                    }),
                forall|k: int| i <= k < n ==> self.blocks_info@[k] == old(self).blocks_info@[k],
                self.signature == old(self).signature,
                self.unity_version == old(self).unity_version,
                self.unity_revision == old(self).unity_revision,
                self.version == old(self).version,
                self.size == old(self).size,
                self.compressed_block_info_size == old(self).compressed_block_info_size,
                self.uncompressed_block_info_size == old(self).uncompressed_block_info_size,
                self.flags == old(self).flags,
                self.directory_info == old(self).directory_info,
                self.block == old(self).block,
            decreases n - i,
        {
            let mut b = self.blocks_info[i];
            b.flags = (b.flags & !0x3F) | 1;
            self.blocks_info.set(i, b);
            i = i + 1;
        }
        assert(self.blocks_info@ =~= with_lzma_blocks(old(self)@).blocks);
    }
}

/// The format tag that a bundle starts with: `UnityFS`.
pub open spec fn unity_tag() -> Seq<u8> {
    seq![0x55u8, 0x6E, 0x69, 0x74, 0x79, 0x46, 0x53]
}

/// Selector flag: the blocks-info segment is stored at the end of the bundle.
pub const BLOCKS_INFO_AT_END: u32 = 0x80;

/// Selector flag: the payload starts at a multiple of 16.
pub const PAYLOAD_ALIGNED: u32 = 0x200;

/// Length of the hash that opens the blocks-info segment.
pub const HASH_LEN: usize = 16;

/// The fixed header fields, with strings as the bytes read.
pub struct Header {
    pub signature: Seq<u8>,
    pub version: u32,
    pub unity_version: Seq<u8>,
    pub unity_revision: Seq<u8>,
    pub size: u64,
    pub compressed_block_info_size: u32,
    pub uncompressed_block_info_size: u32,
    pub flags: u32,
}

/// The header at the start of `s`, and the position after it.
pub open spec fn header_at(s: Seq<u8>) -> Result<(Header, int), Failure> {
    match cstr_at(s, 0) {
        None => Err(Failure::UnexpectedEof),
        Some((sig, pos1)) => if sig != unity_tag() {
            Err(Failure::UnsupportedBundle(text_of(sig)))
        } else {
            match (u32_at(s, pos1), pos1) {
                (None, _) => Err(Failure::UnexpectedEof),
                (Some((version, pos2)), _) => match cstr_at(s, pos2) {
                    None => Err(Failure::UnexpectedEof),
                    Some((uv, pos3)) => match cstr_at(s, pos3) {
                        None => Err(Failure::UnexpectedEof),
                        Some((ur, pos4)) => match u64_at(s, pos4) {
                            None => Err(Failure::UnexpectedEof),
                            Some((size, pos5)) => match u32_at(s, pos5) {
                                None => Err(Failure::UnexpectedEof),
                                Some((cs, pos6)) => match u32_at(s, pos6) {
                                    None => Err(Failure::UnexpectedEof),
                                    Some((us, pos7)) => match u32_at(s, pos7) {
                                        None => Err(Failure::UnexpectedEof),
                                        Some((flags, pos8)) => Ok(
                                            (
                                                Header {
                                                    signature: sig,
                                                    version,
                                                    unity_version: uv,
                                                    unity_revision: ur,
                                                    size,
                                                    compressed_block_info_size: cs,
                                                    uncompressed_block_info_size: us,
                                                    flags,
                                                },
                                                pos8,
                                            ),
                                        ),
                                    },
                                },
                            },
                        },
                    },
                },
            }
        },
    }
}

/// A block record at `p`: uncompressed size, compressed size, flags.
pub open spec fn block_at(s: Seq<u8>, p: int) -> Option<(BlockInfo, int)> {
    match u32_at(s, p) {
        None => None,
        Some((u, pos1)) => match u32_at(s, pos1) {
            None => None,
            Some((c, pos2)) => match u16_at(s, pos2) {
                None => None,
                Some((f, pos3)) => Some(
                    (BlockInfo { uncompressed_size: u, compressed_size: c, flags: f }, pos3),
                ),
            },
        },
    }
}

/// `n` block records from `p`.
pub open spec fn blocks_at(s: Seq<u8>, p: int, n: nat) -> Option<(Seq<BlockInfo>, int)>
    decreases n,
{
    if n == 0 {
        Some((seq![], p))
    } else {
        match blocks_at(s, p, (n - 1) as nat) {
            None => None,
            Some((bs, q)) => match block_at(s, q) {
                None => None,
                Some((b, q2)) => Some((bs.push(b), q2)),
            },
        }
    }
}

/// A directory entry at `p`: offset, size, flags, NUL-terminated path.
pub open spec fn dir_at(s: Seq<u8>, p: int) -> Option<(DirModel, int)> {
    match u64_at(s, p) {
        None => None,
        Some((o, pos1)) => match u64_at(s, pos1) {
            None => None,
            Some((z, pos2)) => match u32_at(s, pos2) {
                None => None,
                Some((f, pos3)) => match cstr_at(s, pos3) {
                    None => None,
                    Some((b, pos4)) => Some(
                        (DirModel { offset: o, size: z, flags: f, path: text_of(b) }, pos4),
                    ),
                },
            },
        },
    }
}

/// `n` directory entries from `p`.
pub open spec fn dirs_at(s: Seq<u8>, p: int, n: nat) -> Option<(Seq<DirModel>, int)>
    decreases n,
{
    if n == 0 {
        Some((seq![], p))
    } else {
        match dirs_at(s, p, (n - 1) as nat) {
            None => None,
            Some((ds, q)) => match dir_at(s, q) {
                None => None,
                Some((d, q2)) => Some((ds.push(d), q2)),
            },
        }
    }
}

/// The block and directory tables of a decompressed blocks-info segment.
pub open spec fn tables_of(info: Seq<u8>) -> Result<(Seq<BlockInfo>, Seq<DirModel>), Failure> {
    let pos0 = skip_within(0, HASH_LEN as int, info.len() as int);
    match u32_at(info, pos0) {
        None => Err(Failure::UnexpectedEof),
        Some((nb, pos1)) => match blocks_at(info, pos1, nb as nat) {
            None => Err(Failure::UnexpectedEof),
            Some((bs, pos2)) => match u32_at(info, pos2) {
                None => Err(Failure::UnexpectedEof),
                Some((nd, pos3)) => match dirs_at(info, pos3, nd as nat) {
                    None => Err(Failure::UnexpectedEof),
                    Some((ds, _)) => Ok((bs, ds)),
                },
            },
        },
    }
}

/// Where the blocks-info segment of a bundle with header `h` ending at `p`
/// starts, in a source of `len` bytes; `None` when it would start before 0.
pub open spec fn blocks_info_start(h: Header, p: int, len: int) -> Option<int> {
    if h.flags & BLOCKS_INFO_AT_END != 0 {
        if h.compressed_block_info_size > len {
            None
        } else {
            Some(len - h.compressed_block_info_size)
        }
    } else if h.version >= 7 {
        Some(align16_within(p, len))
    } else {
        Some(p)
    }
}

/// The bundle that `s` holds, or why it holds none.
#[verifier::opaque]
pub open spec fn decoded(s: Seq<u8>) -> Result<BundleModel, Failure> {
    match header_at(s) {
        Err(e) => Err(e),
        Ok((h, p)) => match blocks_info_start(h, p, s.len() as int) {
            None => Err(Failure::UnexpectedEof),
            Some(pos2) => match bytes_at(s, pos2, h.compressed_block_info_size as int) {
                None => Err(Failure::UnexpectedEof),
                Some((raw, pos3)) => match decompressed(
                    h.flags,
                    raw,
                    h.uncompressed_block_info_size,
                ) {
                    Err(e) => Err(e),
                    Ok(info) => match tables_of(info) {
                        Err(e) => Err(e),
                        Ok((bs, ds)) => {
                            let pos4 = if h.flags & PAYLOAD_ALIGNED != 0 {
                                align16_within(pos3, s.len() as int)
                            } else {
                                pos3
                            };
                            if bs.len() != 1 {
                                Err(Failure::MoreThanOneBlock)
                            } else {
                                match bytes_at(s, pos4, bs[0].compressed_size as int) {
                                    None => Err(Failure::UnexpectedEof),
                                    Some((praw, _)) => match decompressed(
                                        bs[0].flags as u32,
                                        praw,
                                        bs[0].uncompressed_size,
                                    ) {
                                        Err(e) => Err(e),
                                        Ok(payload) => Ok(
                                            BundleModel {
                                                signature: text_of(h.signature),
                                                version: h.version,
                                                unity_version: text_of(h.unity_version),
                                                unity_revision: text_of(h.unity_revision),
                                                size: h.size,
                                                compressed_block_info_size:
                                                    h.compressed_block_info_size,
                                                uncompressed_block_info_size:
                                                    h.uncompressed_block_info_size,
                                                flags: h.flags,
                                                blocks: bs,
                                                directory: ds,
                                                block: payload,
                                            },
                                        ),
                                    },
                                }
                            }
                        },
                    },
                },
            },
        },
    }
}

/// Header fields as read, strings still bytes.
struct RawHeader {
    signature: Vec<u8>,
    version: u32,
    unity_version: Vec<u8>,
    unity_revision: Vec<u8>,
    size: u64,
    compressed_block_info_size: u32,
    uncompressed_block_info_size: u32,
    flags: u32,
}

impl RawHeader {
    spec fn model(&self) -> Header {
        Header {
            signature: self.signature@,
            version: self.version,
            unity_version: self.unity_version@,
            unity_revision: self.unity_revision@,
            size: self.size,
            compressed_block_info_size: self.compressed_block_info_size,
            uncompressed_block_info_size: self.uncompressed_block_info_size,
            flags: self.flags,
        }
    }
}

/// Whether `b` is the format tag.
pub fn is_unity_tag(b: &[u8]) -> (r: bool)
    ensures
        r == (b@ == unity_tag()),
{
    let r = b.len() == 7 && b[0] == 0x55 && b[1] == 0x6E && b[2] == 0x69 && b[3] == 0x74 && b[4]
        == 0x79 && b[5] == 0x46 && b[6] == 0x53;
    assert(r ==> b@ =~= unity_tag());
    r
}

fn read_header(reader: &mut ByteReader) -> (r: Result<RawHeader, BundleError>)
    requires
        old(reader).wf(),
        old(reader).position() == 0,
    ensures
        final(reader).wf(),
        final(reader).bytes() == old(reader).bytes(),
        match header_at(old(reader).bytes()) {
            Ok((h, p)) => r matches Ok(x) && x.model() == h && final(reader).position() == p,
            Err(e) => r matches Err(x) && x.kind() == e,
        },
{
    let signature = match reader.read_cstr() {
        Some(v) => v,
        None => return Err(BundleError::UnexpectedEof),
    };
    if !is_unity_tag(signature.as_slice()) {
        return Err(BundleError::UnsupportedBundle(string_from_bytes(signature.as_slice())));
    }
    let version = match reader.read_u32() {
        Some(v) => v,
        None => return Err(BundleError::UnexpectedEof),
    };
    let unity_version = match reader.read_cstr() {
        Some(v) => v,
        None => return Err(BundleError::UnexpectedEof),
    };
    let unity_revision = match reader.read_cstr() {
        Some(v) => v,
        None => return Err(BundleError::UnexpectedEof),
    };
    let size = match reader.read_u64() {
        Some(v) => v,
        None => return Err(BundleError::UnexpectedEof),
    };
    let compressed_block_info_size = match reader.read_u32() {
        Some(v) => v,
        None => return Err(BundleError::UnexpectedEof),
    };
    let uncompressed_block_info_size = match reader.read_u32() {
        Some(v) => v,
        None => return Err(BundleError::UnexpectedEof),
    };
    let flags = match reader.read_u32() {
        Some(v) => v,
        None => return Err(BundleError::UnexpectedEof),
    };
    Ok(
        RawHeader {
            signature,
            version,
            unity_version,
            unity_revision,
            size,
            compressed_block_info_size,
            uncompressed_block_info_size,
            flags,
        },
    )
}

/// Once a table cannot be read up to some entry, it cannot be read further.
proof fn lemma_blocks_stop(s: Seq<u8>, p: int, n: nat, m: nat)
    requires
        n <= m,
        blocks_at(s, p, n) is None,
    ensures
        blocks_at(s, p, m) is None,
    decreases m - n,
{
    if n < m {
        lemma_blocks_stop(s, p, n, (m - 1) as nat);
    }
}

proof fn lemma_dirs_stop(s: Seq<u8>, p: int, n: nat, m: nat)
    requires
        n <= m,
        dirs_at(s, p, n) is None,
    ensures
        dirs_at(s, p, m) is None,
    decreases m - n,
{
    if n < m {
        lemma_dirs_stop(s, p, n, (m - 1) as nat);
    }
}

fn read_block(reader: &mut ByteReader) -> (r: Option<BlockInfo>)
    requires
        old(reader).wf(),
    ensures
        final(reader).wf(),
        final(reader).bytes() == old(reader).bytes(),
        match block_at(old(reader).bytes(), old(reader).position()) {
            Some((b, q)) => r == Some(b) && final(reader).position() == q,
            None => r is None,
        },
{
    let u = reader.read_u32()?;
    let c = reader.read_u32()?;
    let f = reader.read_u16()?;
    Some(BlockInfo { uncompressed_size: u, compressed_size: c, flags: f })
}

fn read_dir(reader: &mut ByteReader) -> (r: Option<DirectoryInfo>)
    requires
        old(reader).wf(),
    ensures
        final(reader).wf(),
        final(reader).bytes() == old(reader).bytes(),
        match dir_at(old(reader).bytes(), old(reader).position()) {
            Some((d, q)) => r matches Some(x) && x@ == d && final(reader).position() == q,
            None => r is None,
        },
{
    let o = reader.read_u64()?;
    let z = reader.read_u64()?;
    let f = reader.read_u32()?;
    let b = reader.read_cstr()?;
    let path = string_from_bytes(b.as_slice());
    Some(DirectoryInfo { offset: o, size: z, flags: f, path })
}

/// Reads the block and directory tables of a decompressed blocks-info segment.
fn read_tables(info: Vec<u8>) -> (r: Result<(Vec<BlockInfo>, Vec<DirectoryInfo>), BundleError>)
    ensures
        match tables_of(info@) {
            Ok((bs, ds)) => r matches Ok((b, d)) && b@ == bs && dir_models(d@) == ds,
            Err(e) => r matches Err(x) && x.kind() == e,
        },
{
    let ghost s = info@;
    let mut reader = ByteReader::new(info);
    reader.skip(HASH_LEN);
    let nb = match reader.read_u32() {
        Some(v) => v,
        None => return Err(BundleError::UnexpectedEof),
    };
    let ghost pos1 = reader.position();
    let mut blocks: Vec<BlockInfo> = Vec::new();
    let mut i: u32 = 0;
    while i < nb
        invariant
            reader.wf(),
            reader.bytes() == s,
            s == info@,
            i <= nb,
            u32_at(s, skip_within(0, HASH_LEN as int, s.len() as int)) == Some((nb, pos1)),
            blocks_at(s, pos1, i as nat) == Some((blocks@, reader.position())),
        decreases nb - i,
    {
        match read_block(&mut reader) {
            Some(b) => {
                blocks.push(b);
            },
            None => {
                proof {
                    lemma_blocks_stop(s, pos1, (i + 1) as nat, nb as nat);
                }
                return Err(BundleError::UnexpectedEof);
            },
        }
        i = i + 1;
    }
    let ghost pos2 = reader.position();
    let nd = match reader.read_u32() {
        Some(v) => v,
        None => return Err(BundleError::UnexpectedEof),
    };
    let ghost pos3 = reader.position();
    let mut dirs: Vec<DirectoryInfo> = Vec::new();
    let mut j: u32 = 0;
    while j < nd
        invariant
            reader.wf(),
            reader.bytes() == s,
            s == info@,
            j <= nd,
            u32_at(s, skip_within(0, HASH_LEN as int, s.len() as int)) == Some((nb, pos1)),
            blocks_at(s, pos1, nb as nat) == Some((blocks@, pos2)),
            u32_at(s, pos2) == Some((nd, pos3)),
            dirs_at(s, pos3, j as nat) == Some((dir_models(dirs@), reader.position())),
        decreases nd - j,
    {
        match read_dir(&mut reader) {
            Some(d) => {
                let ghost before = dirs@;
                dirs.push(d);
                assert(dir_models(dirs@) =~= dir_models(before).push(d@));
            },
            None => {
                proof {
                    lemma_dirs_stop(s, pos3, (j + 1) as nat, nd as nat);
                }
                return Err(BundleError::UnexpectedEof);
            },
        }
        j = j + 1;
    }
    assert(blocks_at(s, pos1, nb as nat) == Some((blocks@, pos2)));
    assert(u32_at(s, pos2) == Some((nd, pos3)));
    Ok((blocks, dirs))
}

/// Reads `size` bytes at the current position and decodes them with the
/// codec that `flags` selects.
fn read_decompress(reader: &mut ByteReader, compressed_size: u32, uncompressed_size: u32, flags: u32) -> (r:
    Result<Vec<u8>, BundleError>)
    requires
        old(reader).wf(),
    ensures
        final(reader).wf(),
        final(reader).bytes() == old(reader).bytes(),
        match bytes_at(old(reader).bytes(), old(reader).position(), compressed_size as int) {
            None => r matches Err(x) && x.kind() == Failure::UnexpectedEof,
            Some((raw, q)) => final(reader).position() == q && match decompressed(
                flags,
                raw,
                uncompressed_size,
            ) {
                Ok(v) => r matches Ok(x) && x@ == v,
                Err(e) => r matches Err(x) && x.kind() == e,
            },
        },
{
    let raw = match reader.read_bytes(compressed_size as usize) {
        Some(v) => v,
        None => return Err(BundleError::UnexpectedEof),
    };
    decompress(flags, raw.as_slice(), uncompressed_size)
}

/// Decodes a bundle from the bytes of a seekable source.
pub struct AssetBundleDecoder {
    inner: ByteReader,
}

impl AssetBundleDecoder {
    /// The bytes of the source.
    pub closed spec fn source(&self) -> Seq<u8> {
        self.inner.bytes()
    }

    pub closed spec fn wf(&self) -> bool {
        self.inner.wf() && self.inner.position() == 0
    }

    pub fn new(reader: Vec<u8>) -> (r: Self)
        ensures
            r.wf(),
            r.source() == reader@,
    {
        AssetBundleDecoder { inner: ByteReader::new(reader) }
    }

    /// Decodes the whole bundle; fails on a wrong signature, a source that
    /// ends early, a codec error, or a block count other than one.
    pub fn decode(self) -> (r: Result<AssetBundle, BundleError>)
        requires
            self.wf(),
        ensures
            match r {
                Ok(b) => decoded(self.source()) == Ok::<BundleModel, Failure>(b@),
                Err(e) => decoded(self.source()) == Err::<BundleModel, Failure>(e.kind()),
            },
    {
        proof {
            reveal(decoded);
        }
        let ghost s = self.source();
        let mut reader = self.inner;
        let header = read_header(&mut reader)?;
        let ghost p = reader.position();
        if header.flags & BLOCKS_INFO_AT_END != 0 {
            if !reader.seek_from_end(header.compressed_block_info_size as usize) {
                return Err(BundleError::UnexpectedEof);
            }
        } else if header.version >= 7 {
            reader.align16();
        }
        assert(blocks_info_start(header.model(), p, s.len() as int) == Some(
            reader.position(),
        ));
        let info = read_decompress(
            &mut reader,
            header.compressed_block_info_size,
            header.uncompressed_block_info_size,
            header.flags,
        )?;
        let (blocks_info, directory_info) = read_tables(info)?;
        if header.flags & PAYLOAD_ALIGNED != 0 {
            reader.align16();
        }
        if blocks_info.len() != 1 {
            return Err(BundleError::MoreThanOneBlock);
        }
        let first = blocks_info[0];
        let block = read_decompress(
            &mut reader,
            first.compressed_size,
            first.uncompressed_size,
            first.flags as u32,
        )?;
        Ok(
            AssetBundle {
                signature: string_from_bytes(header.signature.as_slice()),
                version: header.version,
                unity_version: string_from_bytes(header.unity_version.as_slice()),
                unity_revision: string_from_bytes(header.unity_revision.as_slice()),
                size: header.size,
                compressed_block_info_size: header.compressed_block_info_size,
                uncompressed_block_info_size: header.uncompressed_block_info_size,
                flags: header.flags,
                blocks_info,
                directory_info,
                block,
            },
        )
    }
}

/// The bytes of a string followed by its NUL terminator.
pub open spec fn cstr_of(t: Seq<char>) -> Seq<u8> {
    encode_utf8(t).push(0)
}

/// The bytes of one directory entry.
pub open spec fn dir_bytes(d: DirModel) -> Seq<u8> {
    be64_bytes(d.offset) + be64_bytes(d.size) + be32_bytes(d.flags) + cstr_of(d.path)
}

/// The bytes of a sequence of directory entries.
pub open spec fn dirs_bytes(ds: Seq<DirModel>) -> Seq<u8>
    decreases ds.len(),
{
    if ds.len() == 0 {
        seq![]
    } else {
        dirs_bytes(ds.drop_last()) + dir_bytes(ds.last())
    }
}

/// The uncompressed blocks-info segment written for `m` when its payload
/// compresses to `packed`: a zero hash, one block record, the directory.
pub open spec fn blocks_info_bytes(m: BundleModel, packed: Seq<u8>) -> Seq<u8> {
    zeros(HASH_LEN as nat) + be32_bytes(1) + be32_bytes(m.block.len() as u32) + be32_bytes(
        packed.len() as u32,
    ) + be16_bytes(m.blocks[0].flags) + be32_bytes(m.directory.len() as u32) + dirs_bytes(
        m.directory,
    )
}

/// The signature, version and two metadata strings that open the bundle.
pub open spec fn header_bytes(m: BundleModel) -> Seq<u8> {
    cstr_of(m.signature) + be32_bytes(m.version) + cstr_of(m.unity_version) + cstr_of(
        m.unity_revision,
    )
}

/// The bundle up to the blocks-info segment, with a zero total size and the
/// alignment that the version asks for.
pub open spec fn prefix_bytes(m: BundleModel, info: Seq<u8>, packed_info: Seq<u8>) -> Seq<u8> {
    let b = header_bytes(m) + be64_bytes(0) + be32_bytes(packed_info.len() as u32) + be32_bytes(
        info.len() as u32,
    ) + be32_bytes(m.flags);
    if m.version >= 7 {
        pad16(b)
    } else {
        b
    }
}

/// The bundle before its total size is filled in.
pub open spec fn unsized_bytes(
    m: BundleModel,
    info: Seq<u8>,
    packed_info: Seq<u8>,
    packed: Seq<u8>,
) -> Seq<u8> {
    let b = prefix_bytes(m, info, packed_info) + packed_info;
    let b2 = if m.flags & PAYLOAD_ALIGNED != 0 {
        pad16(b)
    } else {
        b
    };
    b2 + packed
}

/// What encoding `m` gives: the bytes of the bundle, or why there are none.
#[verifier::opaque]
pub open spec fn encoded(m: BundleModel) -> Result<Seq<u8>, Failure> {
    if m.blocks.len() != 1 {
        Err(Failure::MoreThanOneBlock)
    } else {
        match compressed(m.blocks[0].flags as u32, m.block) {
            Err(e) => Err(e),
            Ok(packed) => {
                let info = blocks_info_bytes(m, packed);
                match compressed(m.flags, info) {
                    Err(e) => Err(e),
                    Ok(packed_info) => {
                        let b = unsized_bytes(m, info, packed_info, packed);
                        let at = header_bytes(m).len() as int;
                        Ok(b.subrange(0, at) + be64_bytes(b.len() as u64) + b.subrange(
                            at + 8,
                            b.len() as int,
                        ))
                    },
                }
            },
        }
    }
}

/// Writes the directory entries.
fn push_dirs(out: &mut Vec<u8>, dirs: &Vec<DirectoryInfo>)
    ensures
        final(out)@ == old(out)@ + dirs_bytes(dir_models(dirs@)),
{
    let mut i: usize = 0;
    while i < dirs.len()
        invariant
            i <= dirs@.len(),
            out@ == old(out)@ + dirs_bytes(dir_models(dirs@.subrange(0, i as int))),
        decreases dirs.len() - i,
    {
        let d = &dirs[i];
        let ghost before = out@;
        push_u64(out, d.offset);
        push_u64(out, d.size);
        push_u32(out, d.flags);
        push_cstr(out, d.path.as_str());
        assert(dir_models(dirs@.subrange(0, i + 1 as int)).drop_last() =~= dir_models(
            dirs@.subrange(0, i as int),
        ));
        assert(out@ =~= before + dir_bytes(d@));
        i = i + 1;
    }
    assert(dirs@.subrange(0, dirs@.len() as int) =~= dirs@);
}

/// Encodes a bundle into bytes.
pub struct AssetBundleEncoder {
    inner: Vec<u8>,
}

impl AssetBundleEncoder {
    pub closed spec fn wf(&self) -> bool {
        self.inner@.len() == 0
    }

    pub fn new() -> (r: Self)
        ensures
            r.wf(),
    {
        AssetBundleEncoder { inner: Vec::new() }
    }

    /// Writes `bundle` with its payload compressed by its block's codec and
    /// a fresh blocks-info segment compressed by the bundle's codec; fails
    /// unless the bundle holds exactly one block.
    pub fn encode(self, bundle: &AssetBundle) -> (r: Result<Vec<u8>, BundleError>)
        requires
            self.wf(),
        ensures
            match r {
                Ok(v) => encoded(bundle@) == Ok::<Seq<u8>, Failure>(v@),
                Err(e) => encoded(bundle@) == Err::<Seq<u8>, Failure>(e.kind()),
            },
    {
        proof {
            reveal(encoded);
        }
        if bundle.blocks_info.len() != 1 {
            return Err(BundleError::MoreThanOneBlock);
        }
        let ghost m = bundle@;
        let mut out = self.inner;
        push_cstr(&mut out, bundle.signature.as_str());
        push_u32(&mut out, bundle.version);
        push_cstr(&mut out, bundle.unity_version.as_str());
        push_cstr(&mut out, bundle.unity_revision.as_str());
        assert(out@ =~= header_bytes(m));
        let size_pos = out.len();
        push_u64(&mut out, 0);
        let first = bundle.blocks_info[0];
        let packed = compress(first.flags as u32, bundle.block.as_slice())?;
        let mut info: Vec<u8> = Vec::new();
        let mut k: usize = 0;
        while k < HASH_LEN
            invariant
                k <= HASH_LEN,
                info@ == zeros(k as nat),
            decreases HASH_LEN - k,
        {
            info.push(0);
            k = k + 1;
            assert(info@ =~= zeros(k as nat));
        }
        push_u32(&mut info, 1);
        push_u32(&mut info, bundle.block.len() as u32);
        push_u32(&mut info, packed.len() as u32);
        push_u16(&mut info, first.flags);
        push_u32(&mut info, bundle.directory_info.len() as u32);
        push_dirs(&mut info, &bundle.directory_info);
        assert(info@ =~= blocks_info_bytes(m, packed@));
        let packed_info = compress(bundle.flags, info.as_slice())?;
        push_u32(&mut out, packed_info.len() as u32);
        push_u32(&mut out, info.len() as u32);
        push_u32(&mut out, bundle.flags);
        if bundle.version >= 7 {
            push_pad16(&mut out);
        }
        assert(out@ =~= prefix_bytes(m, info@, packed_info@));
        push_bytes(&mut out, packed_info.as_slice());
        if bundle.flags & PAYLOAD_ALIGNED != 0 {
            push_pad16(&mut out);
        }
        push_bytes(&mut out, packed.as_slice());
        assert(out@ =~= unsized_bytes(m, info@, packed_info@, packed@));
        let end = out.len() as u64;
        patch_u64(&mut out, size_pos, end);
        Ok(out)
    }
}

} // verus!
