//! Parsing of the size-and-alignment metadata block out of a compiled
//! artifact's bytes.
//!
//! The block is located by a magic byte string; after it come sixteen bytes
//! naming the producing version (zero padded), one word whose value reveals
//! the byte order, a record count, and that many records of four 64-bit
//! words each: a fragment hash, a size, an alignment, and a flag word.

use vstd::prelude::*;

verus! {

/// A magic byte string expected to occur uniquely in the compiled binary
/// just before the metadata block. It begins with printable text to make
/// it easy to locate in a binary dump.
pub const STRUCT_METADATA_MAGIC: [u8; 128] = [
    114, 117, 115, 116, 99, 112, 112, 126, 109, 101, 116, 97, 100, 97, 116, 97, 92, 74, 112, 213,
    165, 185, 214, 120, 179, 17, 185, 25, 182, 253, 82, 118, 148, 29, 139, 208, 59, 153, 78, 137,
    230, 54, 26, 177, 232, 121, 132, 166, 44, 106, 218, 57, 158, 33, 69, 32, 54, 204, 123, 226,
    99, 117, 60, 173, 112, 61, 56, 174, 117, 141, 126, 249, 79, 159, 6, 119, 2, 129, 147, 66, 135,
    136, 212, 252, 231, 105, 239, 91, 96, 232, 113, 94, 164, 255, 152, 144, 64, 207, 192, 90, 225,
    171, 59, 154, 60, 2, 0, 191, 114, 182, 38, 134, 134, 183, 212, 227, 31, 217, 12, 5, 65, 221,
    150, 59, 230, 96, 73, 62,
];

/// Size, alignment and flags recorded for one fragment.
#[derive(Clone, Copy, PartialEq, Eq, Structural, Debug)]
pub struct MetaData {
    pub size: u64,
    pub align: u64,
    pub flags: u64,
}

impl MetaData {
    /// Whether flag bit `f` is set.
    pub fn has_flag(&self, f: u32) -> (r: bool)
        requires
            f < 64,
        ensures
            r == (self.flags & (1u64 << f) != 0),
    {
        self.flags & (1u64 << f) != 0
    }
}

/// One metadata record: the fragment hash it belongs to and its data.
#[derive(Clone, Copy, PartialEq, Eq, Structural, Debug)]
pub struct MetaEntry {
    pub hash: u64,
    pub data: MetaData,
}

/// Why a metadata block could not be read.
#[derive(Clone, Copy, PartialEq, Eq, Structural, Debug)]
pub enum MetaError {
    NoMagic,
    VersionMismatch,
    BadEndian,
    Truncated,
}

/// `needle` occurs in `d` at position `p`.
pub open spec fn bytes_at(d: Seq<u8>, needle: Seq<u8>, p: int) -> bool {
    &&& 0 <= p
    &&& p + needle.len() <= d.len()
    &&& forall|j: int| 0 <= j < needle.len() ==> d[p + j] == needle[j]
}

/// First position at or after `i` where `needle` occurs in `d`.
pub open spec fn find_bytes_from(d: Seq<u8>, needle: Seq<u8>, i: int) -> Option<int>
    decreases d.len() - i,
{
    if i < 0 || i + needle.len() > d.len() {
        None
    } else if bytes_at(d, needle, i) {
        Some(i)
    } else {
        find_bytes_from(d, needle, i + 1)
    }
}

/// Finds the first occurrence of `needle` in `d`.
pub fn find_bytes(d: &[u8], needle: &[u8]) -> (r: Option<usize>)
    ensures
        match r {
            Some(p) => find_bytes_from(d@, needle@, 0) == Some(p as int),
            None => find_bytes_from(d@, needle@, 0) is None,
        },
{
    let dn = d.len();
    let nn = needle.len();
    if nn > dn {
        return None;
    }
    let mut i: usize = 0;
    loop
        invariant
            0 <= i <= dn,
            dn == d@.len(),
            nn == needle@.len(),
            nn <= dn,
            find_bytes_from(d@, needle@, i as int) == find_bytes_from(d@, needle@, 0),
        decreases dn - i,
    {
        if nn > dn - i {
            return None;
        }
        let mut j: usize = 0;
        let mut hit = true;
        while j < nn
            invariant
                0 <= j <= nn,
                i + nn <= dn,
                dn == d@.len(),
                nn == needle@.len(),
                hit == (forall|m: int| 0 <= m < j ==> d@[i + m] == needle@[m]),
            decreases nn - j,
        {
            if d[i + j] != needle[j] {
                hit = false;
                proof {
                    assert(d@[i + j] != needle@[j as int]);
                }
                j = nn;
            } else {
                j = j + 1;
            }
        }
        if hit {
            return Some(i);
        }
        i = i + 1;
    }
}

/// The little-endian value of the eight bytes of `d` at `p`.
pub open spec fn le64(d: Seq<u8>, p: int) -> int {
    d[p] + d[p + 1] * 0x100 + d[p + 2] * 0x1_0000 + d[p + 3] * 0x100_0000 + d[p + 4]
        * 0x1_0000_0000 + d[p + 5] * 0x100_0000_0000 + d[p + 6] * 0x1_0000_0000_0000 + d[p + 7]
        * 0x100_0000_0000_0000
}

/// The big-endian value of the eight bytes of `d` at `p`.
pub open spec fn be64(d: Seq<u8>, p: int) -> int {
    d[p + 7] + d[p + 6] * 0x100 + d[p + 5] * 0x1_0000 + d[p + 4] * 0x100_0000 + d[p + 3]
        * 0x1_0000_0000 + d[p + 2] * 0x100_0000_0000 + d[p + 1] * 0x1_0000_0000_0000 + d[p]
        * 0x100_0000_0000_0000
}

/// The value of the eight bytes of `d` at `p` in the selected byte order.
pub open spec fn rd64(d: Seq<u8>, p: int, le: bool) -> int {
    if le {
        le64(d, p)
    } else {
        be64(d, p)
    }
}

fn read_64(d: &[u8], p: usize, le: bool) -> (r: u64)
    requires
        p + 8 <= d@.len(),
    ensures
        r as int == rd64(d@, p as int, le),
{
    let dn = d.len();
    if le {
        (d[p] as u64) + (d[p + 1] as u64) * 0x100 + (d[p + 2] as u64) * 0x1_0000 + (d[p + 3]
            as u64) * 0x100_0000 + (d[p + 4] as u64) * 0x1_0000_0000 + (d[p + 5] as u64)
            * 0x100_0000_0000 + (d[p + 6] as u64) * 0x1_0000_0000_0000 + (d[p + 7] as u64)
            * 0x100_0000_0000_0000
    } else {
        (d[p + 7] as u64) + (d[p + 6] as u64) * 0x100 + (d[p + 5] as u64) * 0x1_0000 + (d[p + 4]
            as u64) * 0x100_0000 + (d[p + 3] as u64) * 0x1_0000_0000 + (d[p + 2] as u64)
            * 0x100_0000_0000 + (d[p + 1] as u64) * 0x1_0000_0000_0000 + (d[p] as u64)
            * 0x100_0000_0000_0000
    }
}

/// The prefix of `v` before its first zero byte.
pub open spec fn ztrim(v: Seq<u8>) -> Seq<u8>
    decreases v.len(),
{
    if v.len() == 0 {
        Seq::empty()
    } else if v[0] == 0 {
        Seq::empty()
    } else {
        seq![v[0]] + ztrim(v.drop_first())
    }
}

/// The records of the block: `cnt` groups of four 64-bit words starting at
/// `p`, or `None` when the data ends first.
pub open spec fn meta_records(d: Seq<u8>, p: int, cnt: nat, le: bool) -> Option<Seq<MetaEntry>>
    decreases cnt,
{
    if cnt == 0 {
        Some(Seq::empty())
    } else if p < 0 || p + 32 > d.len() {
        None
    } else {
        let e = MetaEntry {
            hash: rd64(d, p, le) as u64,
            data: MetaData {
                size: rd64(d, p + 8, le) as u64,
                align: rd64(d, p + 16, le) as u64,
                flags: rd64(d, p + 24, le) as u64,
            },
        };
        match meta_records(d, p + 32, (cnt - 1) as nat, le) {
            Some(rest) => Some(seq![e] + rest),
            None => None,
        }
    }
}

/// Outcome of reading a metadata block.
pub enum MetaScan {
    Parsed { entries: Seq<MetaEntry> },
    Failed { err: MetaError },
}

/// The metadata block of `d`: the bytes after the first occurrence of
/// `magic` must name `version` (zero padded to sixteen bytes), then a word
/// whose value selects the byte order, then the record count and the
/// records.
pub open spec fn read_metadata_spec(d: Seq<u8>, magic: Seq<u8>, version: Seq<u8>) -> MetaScan {
    match find_bytes_from(d, magic, 0) {
        None => MetaScan::Failed { err: MetaError::NoMagic },
        Some(m) => {
            let p0 = m + magic.len();
            if p0 + 16 > d.len() {
                MetaScan::Failed { err: MetaError::Truncated }
            } else if ztrim(d.subrange(p0, p0 + 16)) != version {
                MetaScan::Failed { err: MetaError::VersionMismatch }
            } else if p0 + 24 > d.len() {
                MetaScan::Failed { err: MetaError::Truncated }
            } else {
                let ec = le64(d, p0 + 16);
                if !(ec == 0xffef || ec == 0xefff_0000_0000_0000) {
                    MetaScan::Failed { err: MetaError::BadEndian }
                } else {
                    let le = ec == 0xffef;
                    if p0 + 32 > d.len() {
                        MetaScan::Failed { err: MetaError::Truncated }
                    } else {
                        let cnt = rd64(d, p0 + 24, le) as nat;
                        match meta_records(d, p0 + 32, cnt, le) {
                            Some(es) => MetaScan::Parsed { entries: es },
                            None => MetaScan::Failed { err: MetaError::Truncated },
                        }
                    }
                }
            }
        },
    }
}

/// Reads the metadata block of `d`, expecting it to have been written by
/// `version`; the records come back in their order in the block.
pub fn read_metadata(d: &[u8], magic: &[u8], version: &[u8]) -> (r: Result<Vec<MetaEntry>, MetaError>)
    ensures
        match r {
            Ok(es) => read_metadata_spec(d@, magic@, version@) == (MetaScan::Parsed {
                entries: es@,
            }),
            Err(e) => read_metadata_spec(d@, magic@, version@) == (MetaScan::Failed { err: e }),
        },
{
    let dn = d.len();
    let m = match find_bytes(d, magic) {
        Some(x) => x,
        None => {
            return Err(MetaError::NoMagic);
        },
    };
    proof {
        lemma_find_bytes_bounds(d@, magic@, 0);
    }
    let p0 = m + magic.len();
    if p0 > dn || dn - p0 < 16 {
        return Err(MetaError::Truncated);
    }
    let mut ok = true;
    let mut j: usize = 0;
    let ghost vslice = d@.subrange(p0 as int, p0 + 16);
    loop
        invariant
            0 <= j <= 16,
            p0 + 16 <= dn,
            dn == d@.len(),
            vslice == d@.subrange(p0 as int, p0 + 16),
            forall|m: int| 0 <= m < j ==> vslice[m] != 0,
            forall|m: int| 0 <= m < j ==> m < version@.len() && vslice[m] == version@[m],
        ensures
            ok == (ztrim(vslice) == version@),
        decreases 17 - j,
    {
        if j == 16 {
            ok = version.len() == j;
            proof {
                lemma_ztrim_take(vslice, 16);
                assert(vslice.take(16) =~= vslice);
                if version@.len() == 16 {
                    assert(ztrim(vslice) =~= version@);
                }
            }
            break ;
        }
        let b = d[p0 + j];
        proof {
            assert(vslice[j as int] == d@[p0 + j]);
        }
        if b == 0 {
            ok = version.len() == j;
            proof {
                lemma_ztrim_take(vslice, j as int);
                if version@.len() == j {
                    assert(ztrim(vslice) =~= version@);
                }
            }
            break ;
        }
        if j >= version.len() || version[j] != b {
            ok = false;
            proof {
                lemma_ztrim_index(vslice, j as int);
            }
            break ;
        }
        j = j + 1;
    }
    if !ok {
        return Err(MetaError::VersionMismatch);
    }
    if dn - p0 < 24 {
        return Err(MetaError::Truncated);
    }
    let ec = read_64(d, p0 + 16, true);
    if !(ec == 0xffef || ec == 0xefff_0000_0000_0000) {
        return Err(MetaError::BadEndian);
    }
    let le = ec == 0xffef;
    if dn - p0 < 32 {
        return Err(MetaError::Truncated);
    }
    let cnt = read_64(d, p0 + 24, le);
    proof {
        assert(read_metadata_spec(d@, magic@, version@) == (match meta_records(
            d@,
            p0 + 32,
            cnt as nat,
            le,
        ) {
            Some(es0) => MetaScan::Parsed { entries: es0 },
            None => MetaScan::Failed { err: MetaError::Truncated },
        }));
    }
    let mut es: Vec<MetaEntry> = Vec::new();
    let mut p = p0 + 32;
    let mut k: u64 = 0;
    loop
        invariant
            k <= cnt,
            p0 + 32 <= p <= dn,
            dn == d@.len(),
            es@.len() == k,
            read_metadata_spec(d@, magic@, version@) == (match meta_records(
                d@,
                p0 + 32,
                cnt as nat,
                le,
            ) {
                Some(es0) => MetaScan::Parsed { entries: es0 },
                None => MetaScan::Failed { err: MetaError::Truncated },
            }),
            match meta_records(d@, p as int, (cnt - k) as nat, le) {
                Some(rest) => meta_records(d@, p0 + 32, cnt as nat, le) == Some(es@ + rest),
                None => meta_records(d@, p0 + 32, cnt as nat, le) is None,
            },
        decreases cnt - k,
    {
        if k == cnt {
            proof {
                assert(es@ + Seq::<MetaEntry>::empty() =~= es@);
            }
            return Ok(es);
        }
        if dn - p < 32 {
            return Err(MetaError::Truncated);
        }
        let e = MetaEntry {
            hash: read_64(d, p, le),
            data: MetaData {
                size: read_64(d, p + 8, le),
                align: read_64(d, p + 16, le),
                flags: read_64(d, p + 24, le),
            },
        };
        es.push(e);
        proof {
            if let Some(rest2) = meta_records(d@, p + 32, (cnt - k - 1) as nat, le) {
                assert(es@.drop_last() + (seq![e] + rest2) =~= es@ + rest2);
            }
        }
        p = p + 32;
        k = k + 1;
    }
}

/// When the first `j` bytes of `v` are nonzero and the next byte, if any,
/// is zero, the trim of `v` is its first `j` bytes.
proof fn lemma_ztrim_take(v: Seq<u8>, j: int)
    requires
        0 <= j <= v.len(),
        forall|m: int| 0 <= m < j ==> v[m] != 0,
        j == v.len() || v[j] == 0,
    ensures
        ztrim(v) == v.take(j),
    decreases j,
{
    if v.len() == 0 {
        assert(v.take(0) =~= ztrim(v));
    } else if j == 0 {
        assert(v.take(0) =~= ztrim(v));
    } else {
        lemma_ztrim_take(v.drop_first(), j - 1);
        assert(v.drop_first().take(j - 1) =~= v.take(j).drop_first());
        assert(seq![v[0]] + v.take(j).drop_first() =~= v.take(j));
    }
}

/// When the first `j + 1` bytes of `v` are nonzero, the trim keeps at
/// least them, unchanged.
proof fn lemma_ztrim_index(v: Seq<u8>, j: int)
    requires
        0 <= j < v.len(),
        forall|m: int| 0 <= m <= j ==> v[m] != 0,
    ensures
        ztrim(v).len() > j,
        ztrim(v)[j] == v[j],
    decreases j,
{
    if j > 0 {
        lemma_ztrim_index(v.drop_first(), j - 1);
    }
}

proof fn lemma_find_bytes_bounds(d: Seq<u8>, needle: Seq<u8>, i: int)
    requires
        0 <= i,
    ensures
        match find_bytes_from(d, needle, i) {
            Some(p) => i <= p && p + needle.len() <= d.len(),
            None => true,
        },
    decreases d.len() - i,
{
    if i + needle.len() <= d.len() && !bytes_at(d, needle, i) {
        lemma_find_bytes_bounds(d, needle, i + 1);
    }
}

/// The data of the entries recorded under `hash`, in order.
pub open spec fn with_hash(es: Seq<MetaEntry>, hash: u64) -> Seq<MetaData>
    decreases es.len(),
{
    if es.len() == 0 {
        Seq::empty()
    } else {
        with_hash(es.drop_last(), hash) + (if es.last().hash == hash {
            seq![es.last().data]
        } else {
            Seq::empty()
        })
    }
}

/// Collects the metadata recorded under `hash`, in record order.
pub fn metadata_for(es: &Vec<MetaEntry>, hash: u64) -> (r: Vec<MetaData>)
    ensures
        r@ == with_hash(es@, hash),
{
    let n = es.len();
    let mut r: Vec<MetaData> = Vec::new();
    let mut i: usize = 0;
    while i < n
        invariant
            0 <= i <= n,
            n == es@.len(),
            r@ == with_hash(es@.take(i as int), hash),
        decreases n - i,
    {
        let e = &es[i];
        if e.hash == hash {
            r.push(e.data);
        }
        proof {
            assert(es@.take(i as int + 1).drop_last() =~= es@.take(i as int));
            assert(r@ =~= with_hash(es@.take(i as int + 1), hash));
        }
        i = i + 1;
    }
    proof {
        assert(es@.take(n as int) =~= es@);
    }
    r
}

} // verus!
