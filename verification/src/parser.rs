//! Format detection and top-level parsing of HEIF/HEIC files.

use crate::boxes::fourcc;
use crate::boxes::fourcc::{brand_in, read_brand, FourCC};
use crate::boxes::ftyp;
use crate::boxes::ftyp::{FileTypeBox, FileTypeBoxView};
use crate::boxes::header;
use crate::boxes::header::BoxHeader;
use crate::boxes::iprp;
use crate::boxes::iprp::{ItemPropertiesBox, ItemPropertiesBoxView};
use crate::boxes::iref::{ItemReferenceBox, ItemReferenceView};
use crate::boxes::iter;
use crate::boxes::iter::BoxIter;
use crate::boxes::meta;
use crate::boxes::meta::{MetaBox, MetaBoxView};
use crate::container::builder;
use crate::container::builder::{copy_iprp, copy_iref};
use crate::container::{HeifFile, HeifFileView};
use crate::error::{ErrorKind, HeicError, HeicResult};
use crate::limits::Limits;
use crate::metadata::ContainerMetadata;
use std::collections::HashMap;
use vstd::prelude::*;

verus! {

/// The supported HEIF/HEIC brands: `heic`, `heix`, `hevc`, `hevx`, `mif1`, `msf1`, `heis`
/// and `avic`.
pub open spec fn spec_supported_brands() -> Seq<[u8; 4]> {
    seq![
        [104u8, 101u8, 105u8, 99u8],
        [104u8, 101u8, 105u8, 120u8],
        [104u8, 101u8, 118u8, 99u8],
        [104u8, 101u8, 118u8, 120u8],
        [109u8, 105u8, 102u8, 49u8],
        [109u8, 115u8, 102u8, 49u8],
        [104u8, 101u8, 105u8, 115u8],
        [97u8, 118u8, 105u8, 99u8],
    ]
}

/// The supported HEIF/HEIC brand identifiers.
pub fn supported_brands() -> (v: Vec<[u8; 4]>)
    ensures
        v@ == spec_supported_brands(),
{
    let v: Vec<[u8; 4]> = vec![
        [104u8, 101u8, 105u8, 99u8],
        [104u8, 101u8, 105u8, 120u8],
        [104u8, 101u8, 118u8, 99u8],
        [104u8, 101u8, 118u8, 120u8],
        [109u8, 105u8, 102u8, 49u8],
        [109u8, 115u8, 102u8, 49u8],
        [104u8, 101u8, 105u8, 115u8],
        [97u8, 118u8, 105u8, 99u8],
    ];
    assert(v@ =~= spec_supported_brands());
    v
}

/// Whether `input` is a HEIF/HEIC file: at least 12 bytes, starting with an `ftyp` box whose
/// major brand, or a compatible brand within the box (and the input), is supported.
pub open spec fn spec_is_heif(input: Seq<u8>) -> bool {
    &&& input.len() >= 12
    &&& header::spec_box_header(input) matches Ok(h)
    &&& h.box_type == fourcc::spec_ftyp()
    &&& {
        let end: int = if h.size < input.len() { h.size as int } else { input.len() as int };
        spec_supported_brands().contains(fourcc::brand_at(input, 8))
            || any_supported(ftyp::spec_brand_list(input.take(end), 16))
    }
}

/// Whether some brand of `list` is supported.
pub open spec fn any_supported(list: Seq<[u8; 4]>) -> bool {
    exists|i: int| 0 <= i < list.len() && spec_supported_brands().contains(#[trigger] list[i])
}

/// Quickly detects whether the input is a HEIF/HEIC container.
pub fn is_heif_or_heic(input: &[u8]) -> (b: bool)
    ensures
        b == spec_is_heif(input@),
{
    let len = input.len();
    if len < 12 {
        return false;
    }
    let header = match BoxHeader::parse(input) {
        Ok(h) => h,
        Err(_) => {
            return false;
        },
    };
    if !header.box_type.same(&FourCC::ftyp()) {
        return false;
    }
    let brands = supported_brands();
    let major_brand = read_brand(input, 8);
    if brand_in(brands.as_slice(), &major_brand) {
        return true;
    }
    let end: usize = if header.size < len as u64 { header.size as usize } else { len };
    let window = &input[0..end];
    assert(window@ =~= input@.take(end as int));
    let listed = ftyp::read_brand_list(window, 16);
    let n = listed.len();
    let mut i: usize = 0;
    assert(header::spec_box_header(input@) == Ok::<BoxHeader, ErrorKind>(header));
    assert(!spec_supported_brands().contains(fourcc::brand_at(input@, 8)));
    assert(listed@ == ftyp::spec_brand_list(input@.take(end as int), 16));
    assert(spec_is_heif(input@) == any_supported(listed@));
    while i < n
        invariant
            n == listed@.len(),
            i <= n,
            brands@ == spec_supported_brands(),
            spec_is_heif(input@) == any_supported(listed@),
            forall|j: int| 0 <= j < i ==> !spec_supported_brands().contains(#[trigger] listed@[j]),
        decreases n - i,
    {
        if brand_in(brands.as_slice(), &listed[i]) {
            return true;
        }
        i = i + 1;
    }
    false
}

/// The file type and `meta` boxes found so far at the top level.
pub struct TopLevelView {
    /// The last `ftyp` box.
    pub ftyp: Option<FileTypeBoxView>,
    /// The last `meta` box.
    pub meta: Option<MetaBoxView>,
}

/// One top-level box: `ftyp` and `meta` are parsed, other boxes (such as `mdat`) skipped.
#[verifier::opaque]
pub open spec fn spec_top_child(limits: Limits, acc: TopLevelView, h: BoxHeader, b: Seq<u8>) -> Result<TopLevelView, ErrorKind> {
    if h.box_type == fourcc::spec_ftyp() {
        match ftyp::spec_ftyp(b) {
            Err(k) => Err(k),
            Ok(f) => Ok(TopLevelView { ftyp: Some(f), meta: acc.meta }),
        }
    } else if h.box_type == fourcc::spec_meta() {
        match meta::spec_meta(b, limits) {
            Err(k) => Err(k),
            Ok(m) => Ok(TopLevelView { ftyp: acc.ftyp, meta: Some(m) }),
        }
    } else {
        Ok(acc)
    }
}

/// One top-level box, as a step of the walk over the file.
pub open spec fn spec_top_step(limits: Limits) -> spec_fn(TopLevelView, BoxHeader, Seq<u8>) -> Result<TopLevelView, ErrorKind> {
    |acc: TopLevelView, h: BoxHeader, b: Seq<u8>| spec_top_child(limits, acc, h, b)
}

/// The `ftyp` and `meta` boxes of a file, after the size limit and format checks; a file
/// without either box is an invalid container.
pub open spec fn spec_top_level(input: Seq<u8>, limits: Limits) -> Result<(FileTypeBoxView, MetaBoxView), ErrorKind> {
    if !limits.allows_file_size(input.len() as int) {
        Err(ErrorKind::LimitExceeded)
    } else if !spec_is_heif(input) {
        Err(ErrorKind::UnsupportedFormat)
    } else {
        match iter::spec_fold_boxes(input, TopLevelView { ftyp: None, meta: None }, spec_top_step(limits)) {
            Err(k) => Err(k),
            Ok(t) => match (t.ftyp, t.meta) {
                (Some(f), Some(m)) => Ok((f, m)),
                _ => Err(ErrorKind::InvalidContainer),
            },
        }
    }
}

/// The item properties that a container is built with: those of `meta`, or none.
pub open spec fn props_of(m: MetaBoxView) -> ItemPropertiesBoxView {
    match m.iprp {
        Some(v) => v,
        None => iprp::empty_iprp(),
    }
}

/// The item references that a container is built with: those of `meta`, or none.
pub open spec fn refs_of(m: MetaBoxView) -> Seq<ItemReferenceView> {
    match m.iref {
        Some(v) => v,
        None => Seq::empty(),
    }
}

/// Whether `r` is a possible outcome of parsing `input`: the errors of the top-level walk,
/// else what building the container from its `ftyp` and `meta` boxes gives.
pub open spec fn spec_parse_outcome(input: Seq<u8>, limits: Limits, r: Result<HeifFileView, ErrorKind>) -> bool {
    match spec_top_level(input, limits) {
        Err(k) => r == Err::<HeifFileView, ErrorKind>(k),
        Ok((f, m)) => {
            &&& (r matches Ok(h) ==> builder::spec_built(f, m, props_of(m), refs_of(m), input, limits, h))
            &&& (r matches Err(k) ==> builder::spec_build_error(m, props_of(m), refs_of(m), input, limits, k))
            &&& (builder::spec_build_succeeds(m, props_of(m), refs_of(m), input, limits) ==> r is Ok)
        },
    }
}

/// Takes in one top-level box.
fn apply_top_child(
    ftyp_box: &mut Option<FileTypeBox>,
    meta_box: &mut Option<MetaBox>,
    h: &BoxHeader,
    data: &[u8],
    limits: &Limits,
) -> (r: HeicResult<()>)
    ensures
        match spec_top_child(*limits, top_view(*old(ftyp_box), *old(meta_box)), *h, data@) {
            Ok(v) => r is Ok && top_view(*final(ftyp_box), *final(meta_box)) == v,
            Err(k) => r matches Err(e) && e.kind() == k,
        },
{
    reveal(spec_top_child);
    if h.box_type.same(&FourCC::ftyp()) {
        *ftyp_box = Some(FileTypeBox::parse(data)?);
    } else if h.box_type.same(&FourCC::meta()) {
        *meta_box = Some(MetaBox::parse(data, limits)?);
    }
    Ok(())
}

/// The view of the boxes found so far.
pub open spec fn top_view(f: Option<FileTypeBox>, m: Option<MetaBox>) -> TopLevelView {
    TopLevelView {
        ftyp: match f {
            Some(x) => Some(x@),
            None => None,
        },
        meta: match m {
            Some(x) => Some(x@),
            None => None,
        },
    }
}

/// Parses a HEIF/HEIC file into a demuxed container.
///
/// The file size is checked against the limits, the format is detected, the top-level
/// `ftyp` and `meta` boxes are parsed (both are required), and the container is built from
/// them with the properties and references of `meta`.
pub fn parse_heif(input: &[u8], limits: &Limits) -> (r: HeicResult<HeifFile>)
    ensures
        spec_parse_outcome(input@, *limits, match r {
            Ok(h) => Ok::<HeifFileView, ErrorKind>(h@),
            Err(e) => Err::<HeifFileView, ErrorKind>(e.kind()),
        }),
{
    limits.check_file_size(input.len() as u64)?;
    if !is_heif_or_heic(input) {
        return Err(HeicError::unsupported_format("Input is not a supported HEIC/HEIF file"));
    }
    let ghost step = spec_top_step(*limits);
    let ghost init = TopLevelView { ftyp: None, meta: None };
    let mut ftyp_box: Option<FileTypeBox> = None;
    let mut meta_box: Option<MetaBox> = None;
    let mut it = BoxIter::new(input);
    assert(input@.skip(0) =~= input@);
    loop
        invariant
            it.spec_data() == input@,
            0 <= it.spec_offset() <= input@.len(),
            input@.len() == input.len(),
            step == spec_top_step(*limits),
            init == (TopLevelView { ftyp: None, meta: None }),
            limits.allows_file_size(input@.len() as int),
            spec_is_heif(input@),
            iter::spec_fold_boxes(input@.skip(it.spec_offset()), top_view(ftyp_box, meta_box), step)
                == iter::spec_fold_boxes(input@, init, step),
        ensures
            iter::spec_fold_boxes(input@, init, step) == Ok::<TopLevelView, ErrorKind>(top_view(ftyp_box, meta_box)),
        decreases input@.len() - it.spec_offset(),
    {
        let ghost off = it.spec_offset();
        let ghost rem = input@.skip(off);
        let next = it.next_box();
        match next {
            None => {
                assert(rem.len() == 0);
                break;
            },
            Some(res) => {
                if res.is_err() {
                    assert(iter::spec_fold_boxes(rem, top_view(ftyp_box, meta_box), step) is Err);
                }
                let (h, box_data) = res?;
                let ghost n = iter::spec_next_box(rem)->Ok_0.1;
                proof {
                    iter::lemma_next_box_progress(rem);
                    assert(rem.skip(n) =~= input@.skip(off + n));
                }
                apply_top_child(&mut ftyp_box, &mut meta_box, &h, box_data, limits)?;
            },
        }
    }
    let ftyp = match ftyp_box {
        Some(f) => f,
        None => {
            return Err(HeicError::invalid_container("Missing ftyp box"));
        },
    };
    let meta = match meta_box {
        Some(m) => m,
        None => {
            return Err(HeicError::invalid_container("Missing meta box"));
        },
    };
    let iprp = match &meta.iprp {
        Some(b) => copy_iprp(b),
        None => {
            let b = ItemPropertiesBox { properties: Vec::new(), associations: HashMap::new() };
            assert(b@.properties =~= iprp::empty_iprp().properties);
            assert(b@.associations =~= iprp::empty_iprp().associations);
            b
        },
    };
    let iref = match &meta.iref {
        Some(b) => copy_iref(b),
        None => {
            let b = ItemReferenceBox { references: Vec::new() };
            assert(b@ =~= Seq::<ItemReferenceView>::empty());
            b
        },
    };
    HeifFile::build(ftyp, meta, iprp, iref, input, limits)
}

/// Parses a file and summarises its container (see [`HeifFile::get_metadata`]).
pub fn inspect_container(input: &[u8], limits: &Limits) -> (r: HeicResult<ContainerMetadata>)
    ensures
        match r {
            Ok(m) => exists|h: HeifFileView| #[trigger] spec_parse_outcome(input@, *limits, Ok::<HeifFileView, ErrorKind>(h))
                && crate::container::spec_metadata_of(h, m),
            Err(e) => spec_parse_outcome(input@, *limits, Err::<HeifFileView, ErrorKind>(e.kind())),
        },
{
    let file = parse_heif(input, limits)?;
    let m = file.get_metadata();
    assert(spec_parse_outcome(input@, *limits, Ok::<HeifFileView, ErrorKind>(file@)));
    Ok(m)
}

/// Parsing accepts only detected HEIF/HEIC files within the file size limit: whenever
/// `parse_heif` can succeed on an input, `is_heif_or_heic` holds of it.
pub proof fn lemma_parsed_is_heif(input: Seq<u8>, limits: Limits, h: HeifFileView)
    requires
        spec_parse_outcome(input, limits, Ok(h)),
    ensures
        spec_is_heif(input),
        limits.allows_file_size(input.len() as int),
{
}

/// Refused inputs: a file over the size limit is refused as exceeding a limit, and a file
/// within it that is not a detected HEIF/HEIC file as an unsupported format; nothing else
/// can come back for either.
pub proof fn lemma_refused_inputs(input: Seq<u8>, limits: Limits, r: Result<HeifFileView, ErrorKind>)
    requires
        spec_parse_outcome(input, limits, r),
    ensures
        !limits.allows_file_size(input.len() as int) ==> r == Err::<HeifFileView, ErrorKind>(ErrorKind::LimitExceeded),
        limits.allows_file_size(input.len() as int) && !spec_is_heif(input)
            ==> r == Err::<HeifFileView, ErrorKind>(ErrorKind::UnsupportedFormat),
{
}

} // verus!
