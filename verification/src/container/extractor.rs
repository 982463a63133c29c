//! Item payloads, Annex-B streams and EXIF data read from a demuxed container.

use crate::boxes::iprp;
use crate::boxes::meta::iloc::{ConstructionMethod, ItemExtent};
use crate::boxes::meta::{MetaBox, MetaBoxView};
use crate::boxes::properties;
use crate::boxes::properties::HevcConfigView;
use crate::bytes;
use crate::bytes::{read_be16, read_be32};
use crate::container::{HeifFile, HeifFileView};
use crate::error::{ErrorKind, HeicError, HeicResult};
use crate::text::append_bytes;
use vstd::prelude::*;

verus! {

broadcast use vstd::std_specs::hash::group_hash_axioms;

/// `a + b`, or `u64::MAX` when the sum does not fit.
pub open spec fn sat_add(a: u64, b: u64) -> int {
    if a + b > u64::MAX { u64::MAX as int } else { a + b }
}

/// The bytes of `exts` (offsets relative to `base`) read from `src` in order, appended to
/// `acc`. An offset or a length beyond `usize` is refused as over the limits; an extent
/// that ends beyond `src` is malformed.
pub open spec fn spec_gather(src: Seq<u8>, base: u64, exts: Seq<ItemExtent>, acc: Seq<u8>) -> Result<Seq<u8>, ErrorKind>
    decreases exts.len(),
{
    if exts.len() == 0 {
        Ok(acc)
    } else {
        let e = exts[0];
        let start = sat_add(base, e.offset);
        if start > usize::MAX {
            Err(ErrorKind::LimitExceeded)
        } else if e.length > usize::MAX {
            Err(ErrorKind::LimitExceeded)
        } else {
            let end = if start + e.length > usize::MAX { usize::MAX as int } else { start + e.length };
            if end > src.len() {
                Err(ErrorKind::MalformedInput)
            } else {
                spec_gather(src, base, exts.drop_first(), acc + src.subrange(start, end))
            }
        }
    }
}

/// The payload of item `id`: its extents read from the file (construction method 0) or from
/// the `idat` payload (method 1). Items without a location are invalid, method 2 is not
/// supported.
pub open spec fn spec_item_data(meta: MetaBoxView, file: Seq<u8>, id: u32) -> Result<Seq<u8>, ErrorKind> {
    if !meta.iloc.contains_key(id) {
        Err(ErrorKind::InvalidContainer)
    } else {
        let loc = meta.iloc[id];
        match loc.construction_method {
            ConstructionMethod::FileOffset => spec_gather(file, loc.base_offset, loc.extents, Seq::empty()),
            ConstructionMethod::IdatOffset => match meta.idat {
                None => Err(ErrorKind::InvalidContainer),
                Some(d) => spec_gather(d, loc.base_offset, loc.extents, Seq::empty()),
            },
            ConstructionMethod::ItemOffset => Err(ErrorKind::UnsupportedFeature),
        }
    }
}

/// Start and end of an extent within a source of `src_len` bytes, or why it cannot be read.
fn extent_range(base: u64, e: ItemExtent, src_len: usize) -> (r: HeicResult<(usize, usize)>)
    ensures
        ({
            let start = sat_add(base, e.offset);
            if start > usize::MAX || e.length > usize::MAX {
                r matches Err(err) && err.kind() == ErrorKind::LimitExceeded
            } else {
                let end = if start + e.length > usize::MAX { usize::MAX as int } else { start + e.length };
                if end > src_len {
                    r matches Err(err) && err.kind() == ErrorKind::MalformedInput
                } else {
                    r matches Ok((s, t)) && s == start && t == end
                }
            }
        }),
{
    let start64: u64 = if base > u64::MAX - e.offset { u64::MAX } else { base + e.offset };
    if start64 > usize::MAX as u64 {
        return Err(HeicError::limit_exceeded("Extent offset exceeds usize"));
    }
    if e.length > usize::MAX as u64 {
        return Err(HeicError::limit_exceeded("Extent length exceeds usize"));
    }
    let start = start64 as usize;
    let len = e.length as usize;
    let end = if start > usize::MAX - len { usize::MAX } else { start + len };
    if end > src_len {
        return Err(HeicError::malformed("Extent exceeds the available data"));
    }
    Ok((start, end))
}

/// Appends the bytes of `exts` read from `src` to `out`.
fn gather(src: &[u8], base: u64, exts: &Vec<ItemExtent>, out: &mut Vec<u8>) -> (r: HeicResult<()>)
    ensures
        match spec_gather(src@, base, exts@, old(out)@) {
            Ok(v) => r is Ok && final(out)@ == v,
            Err(k) => r matches Err(e) && e.kind() == k,
        },
{
    let n = exts.len();
    let mut i: usize = 0;
    let ghost target = spec_gather(src@, base, exts@, out@);
    assert(exts@.skip(0) =~= exts@);
    while i < n
        invariant
            n == exts@.len(),
            i <= n,
            target == spec_gather(src@, base, exts@, old(out)@),
            target == spec_gather(src@, base, exts@.skip(i as int), out@),
        decreases n - i,
    {
        assert(exts@.skip(i as int).drop_first() =~= exts@.skip(i + 1));
        assert(exts@.skip(i as int)[0] == exts@[i as int]);
        let (start, end) = extent_range(base, exts[i], src.len())?;
        append_bytes(out, &src[start..end]);
        i = i + 1;
    }
    Ok(())
}

/// Whether every extent of `exts` (offsets relative to `base`) can be read from a source of
/// `src_len` bytes, checked in order as [`spec_gather`] does.
pub open spec fn spec_extents_fit(base: u64, exts: Seq<ItemExtent>, src_len: int) -> Result<(), ErrorKind>
    decreases exts.len(),
{
    if exts.len() == 0 {
        Ok(())
    } else {
        let e = exts[0];
        let start = sat_add(base, e.offset);
        if start > usize::MAX {
            Err(ErrorKind::LimitExceeded)
        } else if e.length > usize::MAX {
            Err(ErrorKind::LimitExceeded)
        } else {
            let end = if start + e.length > usize::MAX { usize::MAX as int } else { start + e.length };
            if end > src_len {
                Err(ErrorKind::MalformedInput)
            } else {
                spec_extents_fit(base, exts.drop_first(), src_len)
            }
        }
    }
}

/// Reading the extents succeeds exactly when they fit, and fails for the same reason.
pub proof fn lemma_gather_fits(src: Seq<u8>, base: u64, exts: Seq<ItemExtent>, acc: Seq<u8>)
    ensures
        spec_gather(src, base, exts, acc) is Ok <==> spec_extents_fit(base, exts, src.len() as int) is Ok,
        spec_gather(src, base, exts, acc) is Err ==> spec_gather(src, base, exts, acc)->Err_0
            == spec_extents_fit(base, exts, src.len() as int)->Err_0,
    decreases exts.len(),
{
    if exts.len() > 0 {
        let e = exts[0];
        let start = sat_add(base, e.offset);
        let end = if start + e.length > usize::MAX { usize::MAX as int } else { start + e.length };
        lemma_gather_fits(src, base, exts.drop_first(), acc + src.subrange(start, end));
    }
}

/// Checks that every extent of `exts` can be read from a source of `src_len` bytes.
pub(crate) fn check_extents(src_len: usize, base: u64, exts: &Vec<ItemExtent>) -> (r: HeicResult<()>)
    ensures
        match spec_extents_fit(base, exts@, src_len as int) {
            Ok(_) => r is Ok,
            Err(k) => r matches Err(e) && e.kind() == k,
        },
{
    let n = exts.len();
    let mut i: usize = 0;
    assert(exts@.skip(0) =~= exts@);
    while i < n
        invariant
            n == exts@.len(),
            i <= n,
            spec_extents_fit(base, exts@, src_len as int) == spec_extents_fit(base, exts@.skip(i as int), src_len as int),
        decreases n - i,
    {
        assert(exts@.skip(i as int).drop_first() =~= exts@.skip(i + 1));
        assert(exts@.skip(i as int)[0] == exts@[i as int]);
        let _range = extent_range(base, exts[i], src_len)?;
        i = i + 1;
    }
    assert(exts@.skip(n as int) =~= Seq::<ItemExtent>::empty());
    Ok(())
}

/// Reads the payload of item `id` as `meta` locates it.
pub(crate) fn item_data(meta: &MetaBox, file_bytes: &[u8], item_id: u32) -> (r: HeicResult<Vec<u8>>)
    ensures
        crate::error::agrees_view(r, spec_item_data(meta@, file_bytes@, item_id)),
{
    let loc = match meta.iloc.items.get(&item_id) {
        Some(l) => l,
        None => {
            return Err(HeicError::invalid_container("Item has no iloc entry"));
        },
    };
    assert(meta@.iloc[item_id] == loc@);
    let mut output: Vec<u8> = Vec::new();
    match loc.construction_method {
        ConstructionMethod::FileOffset => {
            gather(file_bytes, loc.base_offset, &loc.extents, &mut output)?;
        },
        ConstructionMethod::IdatOffset => {
            match &meta.idat {
                Some(idat_data) => {
                    gather(idat_data.as_slice(), loc.base_offset, &loc.extents, &mut output)?;
                },
                None => {
                    return Err(HeicError::invalid_container("Item uses idat construction but meta has no idat box"));
                },
            }
        },
        ConstructionMethod::ItemOffset => {
            return Err(HeicError::unsupported_feature("Construction method 2 (item offset) is not supported"));
        },
    }
    Ok(output)
}

/// Length of the NAL unit whose length field of `n` bytes starts at `offset` (fields of
/// other widths count as 4).
pub open spec fn spec_nal_len(data: Seq<u8>, offset: int, n: int) -> int {
    if n == 1 {
        data[offset] as int
    } else if n == 2 {
        bytes::be16_at(data, offset)
    } else if n == 4 {
        bytes::be32_at(data, offset)
    } else {
        4
    }
}

/// The length-prefixed NAL units of `data` from `offset` on, each prefixed with the Annex-B
/// start code; a trailing piece shorter than a length field is ignored, a unit that runs past
/// the end is malformed.
pub open spec fn spec_nal_units(data: Seq<u8>, offset: int, n: int) -> Result<Seq<u8>, ErrorKind>
    decreases data.len() - offset,
{
    if offset < 0 || n < 0 || offset + n > data.len() {
        Ok(Seq::empty())
    } else {
        let len = spec_nal_len(data, offset, n);
        let body = offset + n;
        if body + len > data.len() {
            Err(ErrorKind::MalformedInput)
        } else {
            match spec_nal_units(data, body + len, n) {
                Err(k) => Err(k),
                Ok(rest) => Ok(properties::spec_start_code() + data.subrange(body, body + len) + rest),
            }
        }
    }
}

/// The Annex-B stream of item `id`: the parameter sets of its first `hvcC` (when it has
/// one), then its NAL units with start codes.
pub open spec fn spec_annex_b_stream(f: HeifFileView, file: Seq<u8>, id: u32) -> Result<Seq<u8>, ErrorKind> {
    match spec_item_data(f.meta, file, id) {
        Err(k) => Err(k),
        Ok(d) => {
            let cfg = iprp::first_hevc(f.iprp.props_for_item(id));
            let head = match cfg {
                Some(c) => properties::spec_annex_b(c.vps) + properties::spec_annex_b(c.sps) + properties::spec_annex_b(c.pps),
                None => Seq::empty(),
            };
            let n: int = match cfg {
                Some(c) => c.nalu_length_size as int,
                None => 4,
            };
            match spec_nal_units(d, 0, n) {
                Err(k) => Err(k),
                Ok(u) => Ok(head + u),
            }
        },
    }
}

/// The EXIF payload of the container: none without an EXIF item; otherwise the item's bytes
/// after the 4-byte TIFF header offset and the bytes it skips, or all the bytes when that
/// offset leads to or past the end.
pub open spec fn spec_exif_data(f: HeifFileView, file: Seq<u8>) -> Result<Option<Seq<u8>>, ErrorKind> {
    match f.exif_item_id {
        None => Ok(None),
        Some(id) => match spec_item_data(f.meta, file, id) {
            Err(k) => Err(k),
            Ok(raw) => if raw.len() >= 4 && 4 + bytes::be32_at(raw, 0) < raw.len() {
                Ok(Some(raw.skip(4 + bytes::be32_at(raw, 0))))
            } else {
                Ok(Some(raw))
            },
        },
    }
}

impl HeifFile {
    /// Reads the payload of an item from all its extents, as `iloc` locates them.
    pub fn extract_item_data(&self, file_bytes: &[u8], item_id: u32) -> (r: HeicResult<Vec<u8>>)
        ensures
            crate::error::agrees_view(r, spec_item_data(self@.meta, file_bytes@, item_id)),
    {
        item_data(&self.meta, file_bytes, item_id)
    }

    /// Builds the Annex-B HEVC stream of an item: parameter sets from its `hvcC`, then its
    /// length-prefixed NAL units with start codes.
    pub fn extract_annex_b_stream(&self, file_bytes: &[u8], item_id: u32) -> (r: HeicResult<Vec<u8>>)
        ensures
            crate::error::agrees_view(r, spec_annex_b_stream(self@, file_bytes@, item_id)),
    {
        let item_data = self.extract_item_data(file_bytes, item_id)?;
        let hevc_config = self.iprp.get_hevc_config_for_item(item_id);
        let mut annex_b: Vec<u8> = Vec::new();
        let nalu_length_size: usize = match hevc_config {
            Some(config) => {
                let header = config.to_annex_b_header();
                append_bytes(&mut annex_b, header.as_slice());
                config.nalu_length_size as usize
            },
            None => 4,
        };
        let len = item_data.len();
        let ghost head = annex_b@;
        proof {
            match hevc_config {
                Some(c) => {
                    assert(head =~= properties::spec_annex_b(c@.vps) + properties::spec_annex_b(c@.sps)
                        + properties::spec_annex_b(c@.pps));
                },
                None => {
                    assert(head =~= Seq::<u8>::empty());
                },
            }
        }
        let ghost n = nalu_length_size as int;
        let mut offset: usize = 0;
        assert(annex_b@ =~= head + Seq::<u8>::empty());
        while offset <= len && len - offset >= nalu_length_size
            invariant
                len == item_data@.len(),
                offset <= len,
                n == nalu_length_size,
                nalu_length_size <= 255,
                spec_annex_b_stream(self@, file_bytes@, item_id) == match spec_nal_units(item_data@, 0, n) {
                    Err(k) => Err(k),
                    Ok(u) => Ok::<Seq<u8>, ErrorKind>(head + u),
                },
                spec_nal_units(item_data@, 0, n) == match spec_nal_units(item_data@, offset as int, n) {
                    Err(k) => Err(k),
                    Ok(rest) => Ok::<Seq<u8>, ErrorKind>(annex_b@.skip(head.len() as int) + rest),
                },
                annex_b@.len() >= head.len(),
                annex_b@.take(head.len() as int) == head,
            decreases len - offset,
        {
            let nalu_len: usize = if nalu_length_size == 1 {
                item_data[offset] as usize
            } else if nalu_length_size == 2 {
                read_be16(item_data.as_slice(), offset) as usize
            } else if nalu_length_size == 4 {
                read_be32(item_data.as_slice(), offset) as usize
            } else {
                4
            };
            let body = offset + nalu_length_size;
            assert(nalu_len == spec_nal_len(item_data@, offset as int, n));
            if len - body < nalu_len {
                return Err(HeicError::malformed("NAL unit length exceeds remaining slice data"));
            }
            let ghost before = annex_b@;
            let code: [u8; 4] = [0, 0, 0, 1];
            append_bytes(&mut annex_b, code.as_slice());
            append_bytes(&mut annex_b, &item_data.as_slice()[body..body + nalu_len]);
            proof {
                let unit = item_data@.subrange(body as int, body + nalu_len);
                assert(code@ =~= properties::spec_start_code());
                assert(annex_b@.take(head.len() as int) =~= head);
                assert(annex_b@.skip(head.len() as int) =~= before.skip(head.len() as int)
                    + properties::spec_start_code() + unit);
                let next = spec_nal_units(item_data@, body + nalu_len, n);
                if let Ok(rest) = next {
                    assert(before.skip(head.len() as int) + (properties::spec_start_code() + unit + rest)
                        =~= annex_b@.skip(head.len() as int) + rest);
                }
            }
            offset = body + nalu_len;
        }
        proof {
            assert(annex_b@ =~= head + annex_b@.skip(head.len() as int));
        }
        Ok(annex_b)
    }

    /// Reads the EXIF payload, if the container has an EXIF item.
    pub fn extract_exif_data(&self, file_bytes: &[u8]) -> (r: HeicResult<Option<Vec<u8>>>)
        ensures
            match r {
                Ok(None) => spec_exif_data(self@, file_bytes@) == Ok::<Option<Seq<u8>>, ErrorKind>(None),
                Ok(Some(v)) => spec_exif_data(self@, file_bytes@) == Ok::<Option<Seq<u8>>, ErrorKind>(Some(v@)),
                Err(e) => spec_exif_data(self@, file_bytes@) == Err::<Option<Seq<u8>>, ErrorKind>(e.kind()),
            },
    {
        let exif_id = match self.exif_item_id {
            Some(id) => id,
            None => {
                return Ok(None);
            },
        };
        let raw = self.extract_item_data(file_bytes, exif_id)?;
        let len = raw.len();
        if len >= 4 {
            let exif_offset = read_be32(raw.as_slice(), 0);
            let start64: u64 = 4 + exif_offset as u64;
            if start64 < len as u64 {
                let start = start64 as usize;
                let tail = vstd::slice::slice_to_vec(&raw.as_slice()[start..len]);
                assert(tail@ =~= raw@.skip(start as int));
                return Ok(Some(tail));
            }
        }
        Ok(Some(raw))
    }
}


/// The parameter sets formatted for Annex B begin with the start code and the first set.
proof fn lemma_annex_b_first(units: Seq<Seq<u8>>)
    requires
        units.len() > 0,
    ensures
        properties::spec_annex_b(units) == properties::spec_start_code() + units[0]
            + properties::spec_annex_b(units.drop_first()),
    decreases units.len(),
{
    if units.len() == 1 {
        assert(units.drop_last() =~= Seq::<Seq<u8>>::empty());
        assert(units.drop_first() =~= Seq::<Seq<u8>>::empty());
        assert(properties::spec_annex_b(Seq::<Seq<u8>>::empty()) =~= Seq::<u8>::empty());
        assert(units.last() == units[0]);
        assert(properties::spec_annex_b(units) == properties::spec_annex_b(units.drop_last())
            + properties::spec_start_code() + units.last());
        assert(properties::spec_annex_b(units) =~= properties::spec_start_code() + units[0]
            + properties::spec_annex_b(units.drop_first()));
    } else {
        lemma_annex_b_first(units.drop_last());
        assert(units.drop_last().drop_first() =~= units.drop_first().drop_last());
        assert(units.drop_first().last() == units.last());
        assert(properties::spec_annex_b(units) =~= properties::spec_start_code() + units[0]
            + properties::spec_annex_b(units.drop_first()));
    }
}

/// Annex-B extraction: when item `id` has an `hvcC` property `c` (its first), the stream is
/// `c`'s parameter sets as `HevcConfig::to_annex_b_header` writes them (every VPS, then every
/// SPS, then every PPS, each after the start code 0, 0, 0, 1) followed by the item's NAL
/// units with their start codes; so with a VPS the stream opens with the start code and the
/// first VPS. Without an `hvcC` the stream is the NAL units alone, read with 4-byte lengths.
pub proof fn lemma_annex_b_parameter_sets(f: HeifFileView, file: Seq<u8>, id: u32)
    ensures
        ({
            let cfg = iprp::first_hevc(f.iprp.props_for_item(id));
            match spec_item_data(f.meta, file, id) {
                Err(k) => spec_annex_b_stream(f, file, id) == Err::<Seq<u8>, ErrorKind>(k),
                Ok(d) => match cfg {
                    Some(c) => {
                        let header = properties::spec_annex_b(c.vps) + properties::spec_annex_b(c.sps)
                            + properties::spec_annex_b(c.pps);
                        &&& spec_nal_units(d, 0, c.nalu_length_size as int) matches Ok(u)
                            ==> spec_annex_b_stream(f, file, id) == Ok::<Seq<u8>, ErrorKind>(header + u)
                        &&& c.vps.len() > 0 ==> (spec_annex_b_stream(f, file, id) matches Ok(st)
                            ==> st.subrange(0, 4) == seq![0u8, 0u8, 0u8, 1u8]
                            && st.subrange(4, 4 + c.vps[0].len() as int) == c.vps[0])
                    },
                    None => spec_nal_units(d, 0, 4) matches Ok(u)
                        ==> spec_annex_b_stream(f, file, id) == Ok::<Seq<u8>, ErrorKind>(u),
                },
            }
        }),
{
    let cfg = iprp::first_hevc(f.iprp.props_for_item(id));
    if let Ok(d) = spec_item_data(f.meta, file, id) {
        if let Some(c) = cfg {
            let header = properties::spec_annex_b(c.vps) + properties::spec_annex_b(c.sps)
                + properties::spec_annex_b(c.pps);
            if let Ok(st) = spec_annex_b_stream(f, file, id) {
                if c.vps.len() > 0 {
                    lemma_annex_b_first(c.vps);
                    let first = properties::spec_start_code() + c.vps[0];
                    assert(st.subrange(0, 4 + c.vps[0].len() as int) =~= first);
                    assert(st.subrange(0, 4) =~= first.subrange(0, 4));
                    assert(st.subrange(4, 4 + c.vps[0].len() as int) =~= first.subrange(4, 4 + c.vps[0].len() as int));
                    assert(first.subrange(4, 4 + c.vps[0].len() as int) =~= c.vps[0]);
                }
            }
        } else {
            if let Ok(u) = spec_nal_units(d, 0, 4) {
                assert(Seq::<u8>::empty() + u =~= u);
            }
        }
    }
}

/// EXIF extraction: an EXIF item's payload opens with a 4-byte big-endian offset of the TIFF
/// header, counted from the end of that field; the payload given back is the item's bytes
/// from `4 + offset` on, or all its bytes when that position is at or past the end (or the
/// payload is shorter than the field). Without an EXIF item there is none, and an item that
/// cannot be read gives its error.
pub proof fn lemma_exif_payload(f: HeifFileView, file: Seq<u8>)
    ensures
        f.exif_item_id is None ==> spec_exif_data(f, file) == Ok::<Option<Seq<u8>>, ErrorKind>(None),
        f.exif_item_id matches Some(id) ==> match spec_item_data(f.meta, file, id) {
            Err(k) => spec_exif_data(f, file) == Err::<Option<Seq<u8>>, ErrorKind>(k),
            Ok(raw) => {
                let start = 4 + (raw[0] as int * 16777216 + raw[1] as int * 65536 + raw[2] as int * 256 + raw[3] as int);
                if raw.len() >= 4 && start < raw.len() {
                    spec_exif_data(f, file) == Ok::<Option<Seq<u8>>, ErrorKind>(Some(raw.subrange(start, raw.len() as int)))
                } else {
                    spec_exif_data(f, file) == Ok::<Option<Seq<u8>>, ErrorKind>(Some(raw))
                }
            },
        },
{
    if let Some(id) = f.exif_item_id {
        if let Ok(raw) = spec_item_data(f.meta, file, id) {
            if raw.len() >= 4 {
                assert(bytes::be32_at(raw, 0) == raw[0] as int * 16777216 + raw[1] as int * 65536
                    + raw[2] as int * 256 + raw[3] as int);
                let start = 4 + bytes::be32_at(raw, 0);
                if start < raw.len() {
                    assert(raw.skip(start) =~= raw.subrange(start, raw.len() as int));
                }
            }
        }
    }
}


/// The bytes of every extent, `base + offset` for `length` bytes of `src`, joined in order.
pub open spec fn joined_extents(src: Seq<u8>, base: int, exts: Seq<ItemExtent>) -> Seq<u8>
    decreases exts.len(),
{
    if exts.len() == 0 {
        Seq::empty()
    } else {
        let e = exts.last();
        joined_extents(src, base, exts.drop_last()) + src.subrange(base + e.offset, base + e.offset + e.length)
    }
}

/// Joining extents takes the first one's bytes, then the rest's.
proof fn lemma_joined_first(src: Seq<u8>, base: int, exts: Seq<ItemExtent>)
    requires
        exts.len() > 0,
    ensures
        joined_extents(src, base, exts) == src.subrange(base + exts[0].offset, base + exts[0].offset + exts[0].length)
            + joined_extents(src, base, exts.drop_first()),
    decreases exts.len(),
{
    let e0 = exts[0];
    let first = src.subrange(base + e0.offset, base + e0.offset + e0.length);
    if exts.len() == 1 {
        assert(exts.drop_last() =~= Seq::<ItemExtent>::empty());
        assert(exts.drop_first() =~= Seq::<ItemExtent>::empty());
        assert(joined_extents(src, base, exts) =~= first + joined_extents(src, base, exts.drop_first()));
    } else {
        lemma_joined_first(src, base, exts.drop_last());
        assert(exts.drop_last().drop_first() =~= exts.drop_first().drop_last());
        assert(exts.drop_first().last() == exts.last());
        assert(joined_extents(src, base, exts) =~= first + joined_extents(src, base, exts.drop_first()));
    }
}

/// Gathering extents that all lie within the source appends their bytes, in order.
proof fn lemma_gather_joins(src: Seq<u8>, base: u64, exts: Seq<ItemExtent>, acc: Seq<u8>)
    requires
        src.len() <= usize::MAX,
        forall|j: int| 0 <= j < exts.len() ==> base + (#[trigger] exts[j]).offset + exts[j].length <= src.len(),
    ensures
        spec_gather(src, base, exts, acc) == Ok::<Seq<u8>, ErrorKind>(acc + joined_extents(src, base as int, exts)),
    decreases exts.len(),
{
    if exts.len() == 0 {
        assert(acc + joined_extents(src, base as int, exts) =~= acc);
    } else {
        let e = exts[0];
        assert(base + e.offset + e.length <= src.len());
        let piece = src.subrange(base + e.offset, base + e.offset + e.length);
        assert forall|j: int| 0 <= j < exts.drop_first().len() implies
            base + (#[trigger] exts.drop_first()[j]).offset + exts.drop_first()[j].length <= src.len() by {
            assert(exts.drop_first()[j] == exts[j + 1]);
        }
        lemma_gather_joins(src, base, exts.drop_first(), acc + piece);
        lemma_joined_first(src, base as int, exts);
        assert(acc + piece + joined_extents(src, base as int, exts.drop_first())
            =~= acc + joined_extents(src, base as int, exts));
    }
}

/// Item payloads: the payload of an item stored in the file (construction method 0) or in
/// `idat` (method 1) is the bytes of its extents, each `length` bytes from base offset plus
/// extent offset in that source, joined in order, whenever every extent lies within it.
pub proof fn lemma_item_data_extents(meta: MetaBoxView, file: Seq<u8>, id: u32)
    requires
        meta.iloc.contains_key(id),
    ensures
        ({
            let loc = meta.iloc[id];
            let src = if loc.construction_method is IdatOffset { meta.idat.unwrap_or(Seq::empty()) } else { file };
            (loc.construction_method is FileOffset || (loc.construction_method is IdatOffset && meta.idat is Some))
                && src.len() <= usize::MAX
                && (forall|j: int| 0 <= j < loc.extents.len()
                    ==> loc.base_offset + (#[trigger] loc.extents[j]).offset + loc.extents[j].length <= src.len())
                ==> spec_item_data(meta, file, id) == Ok::<Seq<u8>, ErrorKind>(
                    joined_extents(src, loc.base_offset as int, loc.extents))
        }),
{
    let loc = meta.iloc[id];
    let src = if loc.construction_method is IdatOffset { meta.idat.unwrap_or(Seq::empty()) } else { file };
    if (loc.construction_method is FileOffset || (loc.construction_method is IdatOffset && meta.idat is Some))
        && src.len() <= usize::MAX
        && (forall|j: int| 0 <= j < loc.extents.len()
            ==> loc.base_offset + (#[trigger] loc.extents[j]).offset + loc.extents[j].length <= src.len()) {
        lemma_gather_joins(src, loc.base_offset, loc.extents, Seq::empty());
        assert(Seq::<u8>::empty() + joined_extents(src, loc.base_offset as int, loc.extents)
            =~= joined_extents(src, loc.base_offset as int, loc.extents));
    }
}


/// NAL units: at `offset`, a big-endian length `L` of `n` bytes (1, 2 or 4) is followed by
/// a unit of `L` bytes; the stream holds the start code 0, 0, 0, 1, those `L` bytes, and
/// then the units after them. A length that runs past the data is malformed, and fewer than
/// `n` bytes left end the stream.
pub proof fn lemma_nal_unit(d: Seq<u8>, offset: int, n: int)
    requires
        0 <= offset,
        n == 1 || n == 2 || n == 4,
    ensures
        offset + n > d.len() ==> spec_nal_units(d, offset, n) == Ok::<Seq<u8>, ErrorKind>(Seq::empty()),
        offset + n <= d.len() ==> ({
            let len: int = if n == 1 {
                d[offset] as int
            } else if n == 2 {
                d[offset] as int * 256 + d[offset + 1] as int
            } else {
                d[offset] as int * 16777216 + d[offset + 1] as int * 65536 + d[offset + 2] as int * 256
                    + d[offset + 3] as int
            };
            let body = offset + n;
            &&& body + len > d.len() ==> spec_nal_units(d, offset, n) == Err::<Seq<u8>, ErrorKind>(ErrorKind::MalformedInput)
            &&& body + len <= d.len() ==> match spec_nal_units(d, body + len, n) {
                Ok(rest) => spec_nal_units(d, offset, n) == Ok::<Seq<u8>, ErrorKind>(
                    seq![0u8, 0u8, 0u8, 1u8] + d.subrange(body, body + len) + rest),
                Err(k) => spec_nal_units(d, offset, n) == Err::<Seq<u8>, ErrorKind>(k),
            }
        }),
{
    if offset + n <= d.len() {
        assert(properties::spec_start_code() =~= seq![0u8, 0u8, 0u8, 1u8]);
    }
}

} // verus!
