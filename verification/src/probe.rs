//! Probing an installer for the architecture of its payload.
//!
//! Installer shells are commonly 32-bit loaders even when the payload that
//! they unpack is 64-bit, so the machine type of the outer image alone is not
//! authoritative. The payload shows through embedded images, through embedded
//! MSI packages, and, for NSIS, through what 7-Zip unpacks. Without usable
//! evidence the architecture of the shell stands.
use crate::bytes::{
    has_at, law_patterns_stand_where_their_bytes_are, le16, le32, stands_at, u16_le, u32_le,
};
use crate::evidence::{
    all_noted, arch_evidence, image_evidence, judged, law_binary_tokens_are_evidence,
    law_machines_are_evidence, law_merging_ignores_order, law_tokens_name_the_evidence,
    law_unknown_means_unrecognized, lemma_all_noted_contains, lemma_noted_contains,
    machine_evidence, machine_token, merged, msi_template_evidence, note, note_all, noted,
    template_evidence, token_evidence, verdict_from_evidence, verdict_view, ArchEvidence,
    PayloadVerdict, VerdictView,
};
use crate::path::{dotted_extension, lemma_extension_behind};
use crate::scan::{
    all_offsets, ascending, holds, in_order, kept, law_candidates_are_told_by_their_bytes,
    law_few_candidates_are_all_kept, law_short_files_are_seen_whole, law_windows_show_marks,
    lemma_in_order, lemma_list_is_complete, lemma_ordered_set_unique, reports, scan_file, visible,
    window_count, window_holds, BLOCK_SIZE, INNO_TAG, Mark, NSIS_MAGIC, Scan,
};
use crate::text::{
    chars_of, decimal, decimal_text, ends_with, is_digit, law_decimal_is_injective, lemma_decimal,
    lemma_find_after, lower, push_chars, push_text, same_str, same_text, string_of, to_lower,
};
use vstd::prelude::*;
use vstd::slice::slice_subrange;

verus! {

/// How much of an embedded image is read to judge its header.
pub const HEADER_BYTES: usize = 0x4000;

/// Most sections that an image may have.
pub const MAX_SECTIONS: u16 = 96;

/// No more than this much is copied out as a suspected embedded MSI.
pub const MAX_EMBEDDED_MSI_BYTES: u64 = 2147483648;

/// No less than this much can be an MSI.
pub const MIN_EMBEDDED_MSI_BYTES: u64 = 512;

/// How many suspected embedded MSIs of one file are looked at.
pub const MAX_EMBEDDED_MSI_CANDIDATES: usize = 8;

/// `PE\0\0`, the start of the headers behind the DOS stub.
pub const PE_MAGIC: [u8; 4] = [0x50, 0x45, 0, 0];

/// What the bytes of a file tell about its payload.
#[derive(Debug)]
pub enum ReaderProbe {
    /// The payload architecture was determined.
    Found(String),
    /// Payload evidence exists but includes machine types outside the
    /// supported platforms.
    Unknown,
    /// An NSIS installer, whose payload shows only when it is unpacked.
    NsisDetected,
    /// No payload evidence either way.
    Inconclusive,
}

/// The model of `ReaderProbe`.
pub enum ReaderProbeView {
    Found(Seq<char>),
    Unknown,
    NsisDetected,
    Inconclusive,
}

impl View for ReaderProbe {
    type V = ReaderProbeView;

    open spec fn view(&self) -> ReaderProbeView {
        match self {
            ReaderProbe::Found(s) => ReaderProbeView::Found(s@),
            ReaderProbe::Unknown => ReaderProbeView::Unknown,
            ReaderProbe::NsisDetected => ReaderProbeView::NsisDetected,
            ReaderProbe::Inconclusive => ReaderProbeView::Inconclusive,
        }
    }
}

/// Outcome of probing an executable for its payload architecture.
#[derive(Debug)]
pub enum ContentProbe {
    /// The payload architecture was determined.
    Found(String),
    /// The payload carries evidence for machine types outside the supported
    /// platforms, so no architecture can be attributed.
    Unknown,
    /// No payload evidence either way; the shell architecture stands.
    Inconclusive,
}

/// The model of `ContentProbe`.
pub enum ContentProbeView {
    Found(Seq<char>),
    Unknown,
    Inconclusive,
}

impl View for ContentProbe {
    type V = ContentProbeView;

    open spec fn view(&self) -> ContentProbeView {
        match self {
            ContentProbe::Found(s) => ContentProbeView::Found(s@),
            ContentProbe::Unknown => ContentProbeView::Unknown,
            ContentProbe::Inconclusive => ContentProbeView::Inconclusive,
        }
    }
}

// ---------------------------------------------------------------------
// Embedded images
// ---------------------------------------------------------------------

/// The bytes as far as a header is read.
pub open spec fn header_part(bytes: Seq<u8>) -> Seq<u8> {
    if bytes.len() < HEADER_BYTES {
        bytes
    } else {
        bytes.take(HEADER_BYTES as int)
    }
}

/// A header buffer: the bytes that were read, and zeros behind them.
pub open spec fn header_buffer(bytes: Seq<u8>) -> Seq<u8> {
    let part = header_part(bytes);
    part + Seq::new((HEADER_BYTES - part.len()) as nat, |i: int| 0u8)
}

/// The machine type of the image that starts with the given bytes; none where
/// the headers are not those of an image, or where the section table reaches
/// beyond what was read. So random `MZ` hits in compressed data are rejected.
pub open spec fn image_machine(bytes: Seq<u8>) -> Option<u16> {
    let hdr = header_buffer(bytes);
    let pe = le32(hdr, 0x3C)->0 as int;
    let sections = le16(hdr, pe + 6);
    let optional = le16(hdr, pe + 20);
    if !stands_at(hdr, pe, PE_MAGIC@) || sections is None || optional is None {
        None
    } else if sections->0 == 0 || sections->0 > MAX_SECTIONS {
        None
    } else if pe + 24 + optional->0 + 40 * sections->0 > header_part(bytes).len() {
        None
    } else {
        le16(hdr, pe + 4)
    }
}

/// Reads the COFF machine type of an embedded image, given the bytes of the
/// file from the start of the image on.
pub fn read_image_header(bytes: &[u8]) -> (machine: Option<u16>)
    ensures
        machine == image_machine(bytes@),
{
    let read: usize = if bytes.len() < HEADER_BYTES {
        bytes.len()
    } else {
        HEADER_BYTES
    };
    let mut hdr: Vec<u8> = Vec::with_capacity(HEADER_BYTES);
    for i in 0..HEADER_BYTES
        invariant
            read == header_part(bytes@).len(),
            read <= bytes@.len(),
            hdr@ == header_buffer(bytes@).take(i as int),
    {
        if i < read {
            hdr.push(bytes[i]);
        } else {
            hdr.push(0);
        }
    }
    let hdr = hdr.as_slice();
    assert(hdr@ == header_buffer(bytes@));
    let pe: u32 = match u32_le(hdr, 0x3C) {
        Some(v) => v,
        None => {
            return None;
        },
    };
    if pe > 0x4000 || !has_at(hdr, pe as usize, PE_MAGIC.as_slice()) {
        return None;
    }
    let pe: usize = pe as usize;
    let sections = u16_le(hdr, pe + 6);
    let optional = u16_le(hdr, pe + 20);
    match (sections, optional) {
        (Some(sections), Some(optional)) => {
            if sections == 0 || sections > MAX_SECTIONS {
                return None;
            }
            let table_end: usize = pe + 24 + optional as usize + 40 * (sections as usize);
            if table_end > read {
                return None;
            }
            u16_le(hdr, pe + 4)
        },
        _ => None,
    }
}

/// The evidence with what one embedded image adds to it.
pub open spec fn image_noted(
    evidence: Seq<ArchEvidence>,
    bytes: Seq<u8>,
    shell_arch: Seq<char>,
) -> Seq<ArchEvidence> {
    match image_machine(bytes) {
        Some(machine) => match machine_evidence(machine, shell_arch) {
            Some(ev) => noted(evidence, ev),
            None => evidence,
        },
        None => evidence,
    }
}

/// The bytes of the file from an offset on; none beyond the end.
pub open spec fn bytes_from(data: Seq<u8>, off: u64) -> Seq<u8> {
    if off < data.len() {
        data.skip(off as int)
    } else {
        Seq::empty()
    }
}

/// The evidence of the images at the given offsets.
pub open spec fn images_evidence(data: Seq<u8>, offs: Seq<u64>, shell_arch: Seq<char>) -> Seq<
    ArchEvidence,
>
    decreases offs.len(),
{
    if offs.len() == 0 {
        seq![]
    } else {
        image_noted(
            images_evidence(data, offs.drop_last(), shell_arch),
            bytes_from(data, offs.last()),
            shell_arch,
        )
    }
}

/// Adds what one embedded image shows, given the bytes of the file from the
/// start of the image on.
pub fn note_image(evidence: &mut Vec<ArchEvidence>, bytes: &[u8], shell_arch: &str)
    ensures
        final(evidence)@ == image_noted(old(evidence)@, bytes@, shell_arch@),
{
    if let Some(machine) = read_image_header(bytes) {
        if let Some(ev) = image_evidence(machine, shell_arch) {
            note(evidence, ev);
        }
    }
}

/// Judges the embedded images of a file. Images of the shell architecture
/// carry no information (installer machinery matches its loader), so only
/// other machine types count as payload evidence.
pub fn embedded_images_verdict(data: &[u8], candidates: &[u64], shell_arch: &str) -> (verdict:
    Option<PayloadVerdict>)
    ensures
        verdict_view(verdict) == judged(images_evidence(data@, candidates@, shell_arch@)),
{
    let mut evidence: Vec<ArchEvidence> = Vec::new();
    for i in 0..candidates.len()
        invariant
            evidence@ == images_evidence(data@, candidates@.take(i as int), shell_arch@),
    {
        let off: u64 = candidates[i];
        let from: usize = if off < data.len() as u64 {
            off as usize
        } else {
            data.len()
        };
        let bytes = slice_subrange(data, from, data.len());
        assert(bytes@ == bytes_from(data@, off));
        note_image(&mut evidence, bytes, shell_arch);
        proof {
            assert(candidates@.take(i + 1).drop_last() == candidates@.take(i as int));
            assert(candidates@.take(i + 1).last() == off);
        }
    }
    assert(candidates@.take(candidates.len() as int) == candidates@);
    verdict_from_evidence(evidence.as_slice())
}

// ---------------------------------------------------------------------
// Embedded packages
// ---------------------------------------------------------------------

/// The part of the file to copy out for one compound document: all that
/// follows its start, if that is neither too short nor too long for an MSI.
pub open spec fn package_range(off: u64, file_len: u64) -> Option<(u64, u64)> {
    if off <= file_len && MIN_EMBEDDED_MSI_BYTES <= file_len - off <= MAX_EMBEDDED_MSI_BYTES {
        Some((off, (file_len - off) as u64))
    } else {
        None
    }
}

/// The parts to copy out for the given documents.
pub open spec fn ranges_of(offs: Seq<u64>, file_len: u64) -> Seq<(u64, u64)>
    decreases offs.len(),
{
    if offs.len() == 0 {
        seq![]
    } else {
        let before = ranges_of(offs.drop_last(), file_len);
        match package_range(offs.last(), file_len) {
            Some(range) => before.push(range),
            None => before,
        }
    }
}

/// The first few documents of a file, which are the ones looked at.
pub open spec fn first_documents(offs: Seq<u64>) -> Seq<u64> {
    if offs.len() < MAX_EMBEDDED_MSI_CANDIDATES {
        offs
    } else {
        offs.take(MAX_EMBEDDED_MSI_CANDIDATES as int)
    }
}

/// The parts of the file, as offset and length, that may be MSI packages.
pub fn package_ranges(candidates: &[u64], file_len: u64) -> (ranges: Vec<(u64, u64)>)
    ensures
        ranges@ == ranges_of(first_documents(candidates@), file_len),
{
    let n: usize = if candidates.len() < MAX_EMBEDDED_MSI_CANDIDATES {
        candidates.len()
    } else {
        MAX_EMBEDDED_MSI_CANDIDATES
    };
    let ghost offs = first_documents(candidates@);
    let mut ranges: Vec<(u64, u64)> = Vec::new();
    for i in 0..n
        invariant
            n == offs.len(),
            n <= candidates.len(),
            offs == first_documents(candidates@),
            ranges@ == ranges_of(offs.take(i as int), file_len),
    {
        let off: u64 = candidates[i];
        proof {
            assert(offs.take(i + 1).drop_last() == offs.take(i as int));
            assert(offs.take(i + 1).last() == off);
        }
        if off <= file_len {
            let len: u64 = file_len - off;
            if MIN_EMBEDDED_MSI_BYTES <= len && len <= MAX_EMBEDDED_MSI_BYTES {
                ranges.push((off, len));
            }
        }
    }
    assert(offs.take(n as int) == offs);
    ranges
}

/// A suspected package that was copied out of the file.
pub struct PackageCopy {
    /// How many bytes arrived.
    pub copied: u64,
    /// The `Template` property of the copy, if it could be read.
    pub template: Option<String>,
}

/// The evidence of a package with the given template.
pub open spec fn package_evidence(template: Option<String>) -> Seq<ArchEvidence> {
    match template {
        Some(t) => template_evidence(t@),
        None => Seq::empty(),
    }
}

/// The evidence of a copy of `len` bytes; an incomplete copy has none.
pub open spec fn copy_evidence(len: u64, copy: PackageCopy) -> Seq<ArchEvidence> {
    if copy.copied == len {
        package_evidence(copy.template)
    } else {
        Seq::empty()
    }
}

/// The evidence of the first `n` copies, each taken from the part of the file
/// that stands at its place among the ranges.
pub open spec fn copies_evidence(
    ranges: Seq<(u64, u64)>,
    copies: Seq<PackageCopy>,
    n: int,
) -> Seq<ArchEvidence>
    decreases n,
{
    if n <= 0 {
        seq![]
    } else {
        all_noted(
            copies_evidence(ranges, copies, n - 1),
            copy_evidence(ranges[n - 1].1, copies[n - 1]),
        )
    }
}

/// The evidence of all copies; a range without a copy has none.
pub open spec fn packages_evidence(ranges: Seq<(u64, u64)>, copies: Seq<PackageCopy>) -> Seq<
    ArchEvidence,
> {
    copies_evidence(
        ranges,
        copies,
        if ranges.len() < copies.len() {
            ranges.len() as int
        } else {
            copies.len() as int
        },
    )
}

/// Payload evidence from the `Template` property of a package; none when the
/// package is unreadable.
pub fn msi_evidence(template: &Option<String>) -> (evidence: Vec<ArchEvidence>)
    ensures
        evidence@ == package_evidence(*template),
{
    match template {
        Some(t) => msi_template_evidence(t.as_str()),
        None => Vec::new(),
    }
}

/// Judges the embedded packages, given what was copied out of each of the
/// ranges. Unlike image machinery every plaintext MSI inside a bootstrapper is
/// content, so packages of the shell architecture count too.
pub fn embedded_msi_verdict(ranges: &[(u64, u64)], copies: &[PackageCopy]) -> (verdict: Option<
    PayloadVerdict,
>)
    ensures
        verdict_view(verdict) == judged(packages_evidence(ranges@, copies@)),
{
    let n: usize = if ranges.len() < copies.len() {
        ranges.len()
    } else {
        copies.len()
    };
    let mut evidence: Vec<ArchEvidence> = Vec::new();
    for i in 0..n
        invariant
            n <= ranges.len(),
            n <= copies.len(),
            evidence@ == copies_evidence(ranges@, copies@, i as int),
    {
        if copies[i].copied == ranges[i].1 {
            let found = msi_evidence(&copies[i].template);
            note_all(&mut evidence, found.as_slice());
        }
    }
    verdict_from_evidence(evidence.as_slice())
}

// ---------------------------------------------------------------------
// One file
// ---------------------------------------------------------------------

/// What a verdict on the payload means for the probe; none where the verdict
/// decides nothing.
pub open spec fn decided(verdict: Option<VerdictView>) -> Option<ReaderProbeView> {
    match verdict {
        Some(VerdictView::Arch(arch)) => Some(ReaderProbeView::Found(arch)),
        Some(VerdictView::Unknown) => Some(ReaderProbeView::Unknown),
        _ => None,
    }
}

/// The outcome for a file. Embedded images come first. A recognized installer
/// format takes precedence over an embedded document: inside it a plaintext
/// MSI is just one bundled component, not the application.
pub open spec fn probe_outcome(
    images: Option<VerdictView>,
    is_nsis: bool,
    is_inno: bool,
    packages: Option<VerdictView>,
) -> ReaderProbeView {
    if decided(images) is Some {
        decided(images)->0
    } else if is_nsis {
        ReaderProbeView::NsisDetected
    } else if is_inno {
        ReaderProbeView::Inconclusive
    } else if decided(packages) is Some {
        decided(packages)->0
    } else {
        ReaderProbeView::Inconclusive
    }
}

/// What the probe does once the embedded images have been judged.
pub enum ProbeStep {
    /// The outcome stands.
    Done(ReaderProbe),
    /// The packages in these parts of the file, given as offset and length,
    /// decide.
    Packages(Vec<(u64, u64)>),
}

fn decide(verdict: Option<PayloadVerdict>) -> (r: Option<ReaderProbe>)
    ensures
        r is Some <==> decided(verdict_view(verdict)) is Some,
        r is Some ==> r->0@ == decided(verdict_view(verdict))->0,
{
    match verdict {
        Some(PayloadVerdict::Arch(arch)) => Some(ReaderProbe::Found(arch)),
        Some(PayloadVerdict::Unknown) => Some(ReaderProbe::Unknown),
        _ => None,
    }
}

/// Goes on after the embedded images.
pub fn after_images(images: Option<PayloadVerdict>, scan: &Scan, file_len: u64) -> (step: ProbeStep)
    ensures
        match step {
            ProbeStep::Done(p) => forall|packages: Option<VerdictView>|
                p@ == #[trigger] probe_outcome(
                    verdict_view(images),
                    scan.is_nsis,
                    scan.is_inno,
                    packages,
                ),
            ProbeStep::Packages(ranges) => {
                &&& decided(verdict_view(images)) is None
                &&& !scan.is_nsis && !scan.is_inno
                &&& ranges@ == ranges_of(first_documents(scan.ole_candidates@), file_len)
            },
        },
{
    if let Some(p) = decide(images) {
        return ProbeStep::Done(p);
    }
    if scan.is_nsis {
        return ProbeStep::Done(ReaderProbe::NsisDetected);
    }
    if scan.is_inno {
        return ProbeStep::Done(ReaderProbe::Inconclusive);
    }
    ProbeStep::Packages(package_ranges(scan.ole_candidates.as_slice(), file_len))
}

/// Ends the probe once the embedded packages have been looked at.
pub fn after_packages(ranges: &[(u64, u64)], copies: &[PackageCopy]) -> (p: ReaderProbe)
    ensures
        p@ == probe_outcome(None, false, false, judged(packages_evidence(ranges@, copies@))),
{
    match decide(embedded_msi_verdict(ranges, copies)) {
        Some(p) => p,
        None => ReaderProbe::Inconclusive,
    }
}

/// The outcome for a file with the given bytes, where `copies` answers for
/// the parts of the file that may be packages.
pub open spec fn file_outcome(
    data: Seq<u8>,
    file_len: u64,
    shell_arch: Seq<char>,
    copies: Seq<PackageCopy>,
) -> ReaderProbeView {
    let block = BLOCK_SIZE as int;
    let n = window_count(data.len() as int, block);
    let images = in_order(kept(Mark::Image, data, block));
    let documents = in_order(kept(Mark::Document, data, block));
    probe_outcome(
        judged(images_evidence(data, images, shell_arch)),
        window_holds(data, block, n, NSIS_MAGIC@),
        window_holds(data, block, n, INNO_TAG@),
        judged(packages_evidence(ranges_of(first_documents(documents), file_len), copies)),
    )
}

/// Probes a file that is at hand as a whole. `copies` answers for the parts
/// of the file that `package_ranges` names, in their order; it is looked at
/// only where they decide.
pub fn probe_reader(data: &[u8], file_len: u64, shell_arch: &str, copies: &[PackageCopy]) -> (p:
    ReaderProbe)
    ensures
        p@ == file_outcome(data@, file_len, shell_arch@, copies@),
{
    let scan = scan_file(data, BLOCK_SIZE);
    proof {
        let block = BLOCK_SIZE as int;
        let images = kept(Mark::Image, data@, block);
        let documents = kept(Mark::Document, data@, block);
        lemma_in_order(images);
        lemma_in_order(documents);
        lemma_ordered_set_unique(scan.mz_candidates@, in_order(images), images);
        lemma_ordered_set_unique(scan.ole_candidates@, in_order(documents), documents);
    }
    let images = embedded_images_verdict(data, scan.mz_candidates.as_slice(), shell_arch);
    let ghost images_view = verdict_view(images);
    match after_images(images, &scan, file_len) {
        ProbeStep::Done(p) => {
            let ghost packages = judged(
                packages_evidence(
                    ranges_of(first_documents(scan.ole_candidates@), file_len),
                    copies@,
                ),
            );
            assert(p@ == probe_outcome(images_view, scan.is_nsis, scan.is_inno, packages));
            p
        },
        ProbeStep::Packages(ranges) => after_packages(ranges.as_slice(), copies),
    }
}

/// What the outcome for the bytes of a file means in the end.
pub open spec fn content_outcome(
    found: Option<ReaderProbeView>,
    unpacked: VerdictView,
) -> ContentProbeView {
    match found {
        Some(ReaderProbeView::Found(arch)) => ContentProbeView::Found(arch),
        Some(ReaderProbeView::Unknown) => ContentProbeView::Unknown,
        Some(ReaderProbeView::NsisDetected) => match unpacked {
            VerdictView::Arch(arch) => ContentProbeView::Found(arch),
            VerdictView::Unknown => ContentProbeView::Unknown,
            VerdictView::NoEvidence => ContentProbeView::Inconclusive,
        },
        _ => ContentProbeView::Inconclusive,
    }
}

/// The model of an optional outcome.
pub open spec fn found_view(found: Option<ReaderProbe>) -> Option<ReaderProbeView> {
    match found {
        Some(p) => Some(p@),
        None => None,
    }
}

/// Concludes the probe. `found` is none for a file that cannot be opened, and
/// `unpacked` is the verdict on the unpacked contents of an NSIS installer: a
/// missing 7-Zip, a failed unpack, or contents without any executable or MSI
/// leave it without evidence.
pub fn probe(found: Option<ReaderProbe>, unpacked: PayloadVerdict) -> (p: ContentProbe)
    ensures
        p@ == content_outcome(found_view(found), unpacked@),
{
    match found {
        Some(ReaderProbe::Found(arch)) => ContentProbe::Found(arch),
        Some(ReaderProbe::Unknown) => ContentProbe::Unknown,
        Some(ReaderProbe::NsisDetected) => match unpacked {
            PayloadVerdict::Arch(arch) => ContentProbe::Found(arch),
            PayloadVerdict::Unknown => ContentProbe::Unknown,
            PayloadVerdict::NoEvidence => ContentProbe::Inconclusive,
        },
        Some(ReaderProbe::Inconclusive) => ContentProbe::Inconclusive,
        None => ContentProbe::Inconclusive,
    }
}

// ---------------------------------------------------------------------
// Unpacked installers
// ---------------------------------------------------------------------

/// What an unpacked file is to the verdict.
#[derive(Debug, Clone, Copy, PartialEq, Eq, Structural)]
pub enum PayloadKind {
    /// An executable, judged by its image.
    Executable,
    /// An MSI package, judged by its template.
    Package,
    /// Anything else, which is not looked at.
    Other,
}

/// The extension in lower case, or an empty text without one.
pub open spec fn lower_extension(extension: Option<String>) -> Seq<char> {
    match extension {
        Some(e) => lower(e@),
        None => Seq::empty(),
    }
}

/// The kind of an unpacked file with the given extension.
pub open spec fn kind_of(extension: Option<String>) -> PayloadKind {
    if extension is Some && lower_extension(extension) == "exe"@ {
        PayloadKind::Executable
    } else if extension is Some && lower_extension(extension) == "msi"@ {
        PayloadKind::Package
    } else {
        PayloadKind::Other
    }
}

/// Whether the extension is that of a nested archive.
pub open spec fn is_container(extension: Option<String>) -> bool {
    extension is Some && (lower_extension(extension) == "7z"@ || lower_extension(extension)
        == "zip"@)
}

/// The kind of an unpacked file, by its extension.
pub fn payload_kind(extension: &Option<String>) -> (kind: PayloadKind)
    ensures
        kind == kind_of(*extension),
{
    match extension {
        Some(e) => {
            let e = to_lower(chars_of(e.as_str()).as_slice());
            if same_text(e.as_slice(), "exe") {
                PayloadKind::Executable
            } else if same_text(e.as_slice(), "msi") {
                PayloadKind::Package
            } else {
                PayloadKind::Other
            }
        },
        None => PayloadKind::Other,
    }
}

/// One unpacked file with what was found out about it.
pub enum UnpackedFile {
    /// An executable with the architecture token of its image.
    Executable(String),
    /// An MSI package with its `Template` property, if it could be read.
    Package(Option<String>),
    /// Anything else.
    Other,
}

/// The evidence with what one unpacked file adds to it. Executables of the
/// shell architecture carry no information (loader machinery such as an
/// uninstaller matches its loader), while every MSI is content.
pub open spec fn file_noted(
    evidence: Seq<ArchEvidence>,
    file: UnpackedFile,
    shell_arch: Seq<char>,
) -> Seq<ArchEvidence> {
    match file {
        UnpackedFile::Executable(arch) => if arch@ != shell_arch && token_evidence(
            arch@,
        ) is Some {
            noted(evidence, token_evidence(arch@)->0)
        } else {
            evidence
        },
        UnpackedFile::Package(template) => all_noted(evidence, package_evidence(template)),
        UnpackedFile::Other => evidence,
    }
}

/// The evidence of all unpacked files.
pub open spec fn files_evidence(files: Seq<UnpackedFile>, shell_arch: Seq<char>) -> Seq<
    ArchEvidence,
>
    decreases files.len(),
{
    if files.len() == 0 {
        seq![]
    } else {
        file_noted(files_evidence(files.drop_last(), shell_arch), files.last(), shell_arch)
    }
}

/// The verdict on unpacked files, which is explicit about missing evidence.
pub open spec fn unpacked_verdict(files: Seq<UnpackedFile>, shell_arch: Seq<char>) -> VerdictView {
    match judged(files_evidence(files, shell_arch)) {
        Some(v) => v,
        None => VerdictView::NoEvidence,
    }
}

/// Judges the unpacked contents of an installer across all unpack levels.
pub fn payload_verdict(files: &[UnpackedFile], shell_arch: &str) -> (verdict: PayloadVerdict)
    ensures
        verdict@ == unpacked_verdict(files@, shell_arch@),
{
    let mut evidence: Vec<ArchEvidence> = Vec::new();
    for i in 0..files.len()
        invariant
            evidence@ == files_evidence(files@.take(i as int), shell_arch@),
    {
        proof {
            assert(files@.take(i + 1).drop_last() == files@.take(i as int));
            assert(files@.take(i + 1).last() == files@[i as int]);
        }
        match &files[i] {
            UnpackedFile::Executable(arch) => {
                if let Some(ev) = arch_evidence(arch.as_str()) {
                    if !same_str(arch.as_str(), shell_arch) {
                        note(&mut evidence, ev);
                    }
                }
            },
            UnpackedFile::Package(template) => {
                let found = msi_evidence(template);
                note_all(&mut evidence, found.as_slice());
            },
            UnpackedFile::Other => {},
        }
    }
    assert(files@.take(files.len() as int) == files@);
    match verdict_from_evidence(evidence.as_slice()) {
        Some(v) => v,
        None => PayloadVerdict::NoEvidence,
    }
}

/// A file inside an unpacked installer.
pub struct UnpackedEntry {
    /// The extension of its name, if it has one.
    pub extension: Option<String>,
    /// Its size in bytes.
    pub len: u64,
}

/// Whether entry `i` is the largest nested archive; of several of that size,
/// the last.
pub open spec fn is_largest_container(files: Seq<UnpackedEntry>, i: int) -> bool {
    &&& 0 <= i < files.len()
    &&& is_container(files[i].extension)
    &&& forall|j: int|
        0 <= j < files.len() && is_container(#[trigger] files[j].extension) ==> if j <= i {
            files[j].len <= files[i].len
        } else {
            files[j].len < files[i].len
        }
}

fn has_container_extension(extension: &Option<String>) -> (r: bool)
    ensures
        r == is_container(*extension),
{
    match extension {
        Some(e) => {
            let e = to_lower(chars_of(e.as_str()).as_slice());
            same_text(e.as_slice(), "7z") || same_text(e.as_slice(), "zip")
        },
        None => false,
    }
}

/// The largest nested archive inside an unpacked installer, if any, as its
/// place in the list. Some packages keep the application in such an archive.
pub fn largest_container(files: &[UnpackedEntry]) -> (best: Option<usize>)
    ensures
        match best {
            Some(i) => is_largest_container(files@, i as int),
            None => forall|j: int|
                0 <= j < files@.len() ==> !is_container(#[trigger] files@[j].extension),
        },
{
    let mut best: Option<usize> = None;
    for i in 0..files.len()
        invariant
            match best {
                Some(b) => {
                    &&& b < i
                    &&& is_largest_container(files@.take(i as int), b as int)
                },
                None => forall|j: int|
                    0 <= j < i ==> !is_container(#[trigger] files@[j].extension),
            },
    {
        let ghost before = files@.take(i as int);
        let ghost now = files@.take(i + 1);
        if has_container_extension(&files[i].extension) {
            let better = match best {
                Some(b) => files[b].len <= files[i].len,
                None => true,
            };
            proof {
                assert(now[i as int] == files@[i as int]);
                assert forall|j: int| 0 <= j < i implies now[j] == files@[j] by {}
                if better {
                    assert forall|j: int|
                        0 <= j < now.len() && is_container(#[trigger] now[j].extension) implies if j
                        <= i {
                        now[j].len <= now[i as int].len
                    } else {
                        now[j].len < now[i as int].len
                    } by {
                        if j < i {
                            assert(is_container(before[j].extension));
                        }
                    }
                    assert(is_largest_container(now, i as int));
                } else {
                    let b = best->0 as int;
                    assert(before[b] == now[b]);
                    assert forall|j: int|
                        0 <= j < now.len() && is_container(#[trigger] now[j].extension) implies if j
                        <= b {
                        now[j].len <= now[b].len
                    } else {
                        now[j].len < now[b].len
                    } by {
                        if j < i {
                            assert(is_container(before[j].extension));
                        }
                    }
                    assert(is_largest_container(now, b));
                }
            }
            if better {
                best = Some(i);
            }
        } else {
            proof {
                if best is Some {
                    let b = best->0 as int;
                    assert(before[b] == now[b]);
                    assert forall|j: int|
                        0 <= j < now.len() && is_container(#[trigger] now[j].extension) implies if j
                        <= b {
                        now[j].len <= now[b].len
                    } else {
                        now[j].len < now[b].len
                    } by {
                        if j < i {
                            assert(is_container(before[j].extension));
                        }
                    }
                    assert(is_largest_container(now, b));
                }
            }
        }
    }
    assert(files@.take(files.len() as int) == files@);
    best
}

/// The 7-Zip program to run, given which of its usual places hold it. A plain
/// `7z` falls back to the search path.
pub fn find_7z(in_program_files: bool, in_program_files_x86: bool) -> (program: &'static str)
    ensures
        program@ == (if in_program_files {
            SEVEN_ZIP_PATH@
        } else if in_program_files_x86 {
            SEVEN_ZIP_PATH_X86@
        } else {
            "7z"@
        }),
{
    if in_program_files {
        SEVEN_ZIP_PATH
    } else if in_program_files_x86 {
        SEVEN_ZIP_PATH_X86
    } else {
        "7z"
    }
}

/// The usual place of 7-Zip.
pub const SEVEN_ZIP_PATH: &'static str = "C:\\Program Files\\7-Zip\\7z.exe";

/// The usual place of a 32-bit 7-Zip.
pub const SEVEN_ZIP_PATH_X86: &'static str = "C:\\Program Files (x86)\\7-Zip\\7z.exe";

/// The name of the temporary file or directory with the given serial number
/// of a process at a time.
pub open spec fn temp_name_of(kind: Seq<char>, process: nat, nanos: nat, serial: nat) -> Seq<char> {
    "version_renamer-"@ + decimal(serial) + "-"@ + kind + "-"@ + decimal(process) + "-"@ + decimal(
        nanos,
    ) + "."@ + kind
}

/// The name of a temporary file or directory, free of collisions where no
/// serial number is used twice. The kind doubles as the extension, which the
/// MSI interface expects.
pub fn temp_name(kind: &str, process: u32, nanos: u128, serial: u64) -> (name: String)
    ensures
        name@ == temp_name_of(kind@, process as nat, nanos as nat, serial as nat),
        ends_with(name@, seq!['.'] + kind@),
{
    proof {
        law_temp_names_have_their_kind(kind@, process as nat, nanos as nat, serial as nat);
    }
    let mut out: Vec<char> = Vec::new();
    push_text(&mut out, "version_renamer-");
    push_chars(&mut out, decimal_text(serial as u128).as_slice());
    push_text(&mut out, "-");
    push_text(&mut out, kind);
    push_text(&mut out, "-");
    push_chars(&mut out, decimal_text(process as u128).as_slice());
    push_text(&mut out, "-");
    push_chars(&mut out, decimal_text(nanos).as_slice());
    push_text(&mut out, ".");
    push_text(&mut out, kind);
    string_of(out.as_slice())
}

/// The temporary names of a process, none of which is given out twice.
pub struct TempNames {
    serial: u64,
}

impl View for TempNames {
    type V = nat;

    /// How many names have been given out.
    closed spec fn view(&self) -> nat {
        self.serial as nat
    }
}

impl TempNames {
    /// The names before the first one is given out.
    pub fn new() -> (names: TempNames)
        ensures
            names@ == 0,
    {
        TempNames { serial: 0 }
    }

    /// Whether no name is left.
    pub fn exhausted(&self) -> (r: bool)
        ensures
            r == (self@ == u64::MAX),
    {
        self.serial == u64::MAX
    }

    /// Gives out a name for a file or directory of the given kind.
    pub fn next(&mut self, kind: &str, process: u32, nanos: u128) -> (name: String)
        requires
            old(self)@ < u64::MAX,
        ensures
            final(self)@ == old(self)@ + 1,
            name@ == temp_name_of(kind@, process as nat, nanos as nat, old(self)@),
            ends_with(name@, seq!['.'] + kind@),
    {
        let name = temp_name(kind, process, nanos, self.serial);
        self.serial = self.serial + 1;
        name
    }
}

// ---------------------------------------------------------------------
// Laws
// ---------------------------------------------------------------------

/// A recognized installer format takes precedence over embedded packages:
/// what they contain makes no difference.
pub proof fn law_installer_marks_outrank_packages(
    images: Option<VerdictView>,
    is_nsis: bool,
    is_inno: bool,
    a: Option<VerdictView>,
    b: Option<VerdictView>,
)
    requires
        is_nsis || is_inno,
    ensures
        probe_outcome(images, is_nsis, is_inno, a) == probe_outcome(images, is_nsis, is_inno, b),
{
}

/// The probe reports an unknown payload only where some evidence names a
/// machine type outside the supported platforms, and without evidence it is
/// inconclusive or asks for an unpack.
pub proof fn law_unknown_needs_unrecognized_evidence(
    images: Seq<ArchEvidence>,
    is_nsis: bool,
    is_inno: bool,
    packages: Seq<ArchEvidence>,
)
    ensures
        probe_outcome(judged(images), is_nsis, is_inno, judged(packages))
            == ReaderProbeView::Unknown ==> images.contains(ArchEvidence::Unrecognized)
            || packages.contains(ArchEvidence::Unrecognized),
        images.len() == 0 && packages.len() == 0 ==> {
            let outcome = probe_outcome(judged(images), is_nsis, is_inno, judged(packages));
            outcome == (if is_nsis {
                ReaderProbeView::NsisDetected
            } else {
                ReaderProbeView::Inconclusive
            })
        },
{
    law_unknown_means_unrecognized(images);
    law_unknown_means_unrecognized(packages);
}

/// Whether the image at an offset is one of the architecture of the shell.
pub open spec fn is_shell_image(data: Seq<u8>, off: u64, shell_arch: Seq<char>) -> bool {
    image_machine(bytes_from(data, off)) matches Some(machine) && machine_token(machine) == Some(
        shell_arch,
    )
}

/// Embedded images of the architecture of the shell make no difference: the
/// evidence of a list of images is that of the list without one of them.
pub proof fn law_shell_images_add_nothing(
    data: Seq<u8>,
    before: Seq<u64>,
    off: u64,
    after: Seq<u64>,
    shell_arch: Seq<char>,
)
    requires
        is_shell_image(data, off, shell_arch),
    ensures
        images_evidence(data, before + seq![off] + after, shell_arch) == images_evidence(
            data,
            before + after,
            shell_arch,
        ),
    decreases after.len(),
{
    let with = before + seq![off] + after;
    let without = before + after;
    if after.len() == 0 {
        assert(with.drop_last() == before);
        assert(without == before);
    } else {
        law_shell_images_add_nothing(data, before, off, after.drop_last(), shell_arch);
        assert(with.drop_last() == before + seq![off] + after.drop_last());
        assert(without.drop_last() == before + after.drop_last());
    }
}

/// Whether an unpacked file is evidence of an architecture.
pub open spec fn file_shows(file: UnpackedFile, shell_arch: Seq<char>, ev: ArchEvidence) -> bool {
    match file {
        UnpackedFile::Executable(arch) => arch@ != shell_arch && token_evidence(arch@) == Some(ev),
        UnpackedFile::Package(template) => package_evidence(template).contains(ev),
        UnpackedFile::Other => false,
    }
}

proof fn lemma_files_evidence(files: Seq<UnpackedFile>, shell_arch: Seq<char>, ev: ArchEvidence)
    ensures
        files_evidence(files, shell_arch).contains(ev) <==> exists|i: int|
            0 <= i < files.len() && #[trigger] file_shows(files[i], shell_arch, ev),
    decreases files.len(),
{
    if files.len() > 0 {
        let front = files.drop_last();
        let before = files_evidence(front, shell_arch);
        lemma_files_evidence(front, shell_arch, ev);
        match files.last() {
            UnpackedFile::Executable(arch) => {
                if arch@ != shell_arch && token_evidence(arch@) is Some {
                    lemma_noted_contains(before, token_evidence(arch@)->0, ev);
                }
            },
            UnpackedFile::Package(template) => {
                lemma_all_noted_contains(before, package_evidence(template), ev);
            },
            UnpackedFile::Other => {},
        }
        assert(files_evidence(files, shell_arch).contains(ev) <==> (before.contains(ev)
            || file_shows(files.last(), shell_arch, ev)));
        if before.contains(ev) {
            let i = choose|i: int|
                0 <= i < front.len() && #[trigger] file_shows(front[i], shell_arch, ev);
            assert(file_shows(files[i], shell_arch, ev));
        }
        if exists|i: int| 0 <= i < files.len() && #[trigger] file_shows(files[i], shell_arch, ev) {
            let i = choose|i: int|
                0 <= i < files.len() && #[trigger] file_shows(files[i], shell_arch, ev);
            if i < front.len() {
                assert(file_shows(front[i], shell_arch, ev));
            }
        }
    }
}

/// The verdict on unpacked files does not depend on the order in which they
/// are found, nor on how often one like another is found.
pub proof fn law_file_order_makes_no_difference(
    a: Seq<UnpackedFile>,
    b: Seq<UnpackedFile>,
    shell_arch: Seq<char>,
)
    requires
        forall|f: UnpackedFile| a.contains(f) <==> b.contains(f),
    ensures
        unpacked_verdict(a, shell_arch) == unpacked_verdict(b, shell_arch),
{
    let ea = files_evidence(a, shell_arch);
    let eb = files_evidence(b, shell_arch);
    assert forall|ev: ArchEvidence| ea.contains(ev) <==> eb.contains(ev) by {
        lemma_files_evidence(a, shell_arch, ev);
        lemma_files_evidence(b, shell_arch, ev);
        if ea.contains(ev) {
            let i = choose|i: int|
                0 <= i < a.len() && #[trigger] file_shows(a[i], shell_arch, ev);
            assert(a.contains(a[i]));
            let j = choose|j: int| 0 <= j < b.len() && b[j] == a[i];
            assert(file_shows(b[j], shell_arch, ev));
        }
        if eb.contains(ev) {
            let i = choose|i: int|
                0 <= i < b.len() && #[trigger] file_shows(b[i], shell_arch, ev);
            assert(b.contains(b[i]));
            let j = choose|j: int| 0 <= j < a.len() && a[j] == b[i];
            assert(file_shows(a[j], shell_arch, ev));
        }
    }
    law_merging_ignores_order(ea, eb);
}

proof fn lemma_numbers_in_name(
    head: Seq<char>,
    a: nat,
    c: char,
    ra: Seq<char>,
    b: nat,
    rb: Seq<char>,
)
    requires
        !is_digit(c),
        head + decimal(a) + seq![c] + ra == head + decimal(b) + seq![c] + rb,
    ensures
        a == b,
        ra == rb,
{
    let da = decimal(a);
    let db = decimal(b);
    lemma_decimal(a);
    lemma_decimal(b);
    let x = head + da + seq![c] + ra;
    let y = head + db + seq![c] + rb;
    assert(x.skip(head.len() as int) == da + seq![c] + ra);
    assert(y.skip(head.len() as int) == db + seq![c] + rb);
    assert forall|i: int| 0 <= i < da.len() implies da[i] != c by {
        assert(is_digit(da[i]));
    }
    assert forall|i: int| 0 <= i < db.len() implies db[i] != c by {
        assert(is_digit(db[i]));
    }
    lemma_find_after(da, c, ra);
    lemma_find_after(db, c, rb);
    assert((da + seq![c] + ra).take(da.len() as int) == da);
    assert((db + seq![c] + rb).take(db.len() as int) == db);
    assert((da + seq![c] + ra).skip(da.len() as int + 1) == ra);
    assert((db + seq![c] + rb).skip(db.len() as int + 1) == rb);
    law_decimal_is_injective(a, b);
}

/// Temporary names are free of collisions within a process: another serial
/// number gives another name, whatever the kinds and the times are.
pub proof fn law_serials_give_new_names(
    kind_a: Seq<char>,
    kind_b: Seq<char>,
    process: nat,
    nanos_a: nat,
    nanos_b: nat,
    serial_a: nat,
    serial_b: nat,
)
    requires
        serial_a != serial_b,
    ensures
        temp_name_of(kind_a, process, nanos_a, serial_a) != temp_name_of(
            kind_b,
            process,
            nanos_b,
            serial_b,
        ),
{
    if temp_name_of(kind_a, process, nanos_a, serial_a) == temp_name_of(
        kind_b,
        process,
        nanos_b,
        serial_b,
    ) {
        lemma_temp_name_parts(kind_a, process, nanos_a, serial_a);
        lemma_temp_name_parts(kind_b, process, nanos_b, serial_b);
        lemma_numbers_in_name(
            "version_renamer-"@,
            serial_a,
            '-',
            behind_serial(kind_a, process, nanos_a),
            serial_b,
            behind_serial(kind_b, process, nanos_b),
        );
    }
}

/// What follows the serial number and its dash in a temporary name.
spec fn behind_serial(kind: Seq<char>, process: nat, nanos: nat) -> Seq<char> {
    kind + seq!['-'] + decimal(process) + seq!['-'] + (decimal(nanos) + seq!['.'] + kind)
}

proof fn lemma_temp_name_parts(kind: Seq<char>, process: nat, nanos: nat, serial: nat)
    ensures
        temp_name_of(kind, process, nanos, serial) == "version_renamer-"@ + decimal(serial)
            + seq!['-'] + behind_serial(kind, process, nanos),
{
    reveal_strlit("-");
    reveal_strlit(".");
    assert("-"@ == seq!['-']);
    assert("."@ == seq!['.']);
}

/// Temporary names of one kind do not collide between processes and times
/// either: only the same process at the same time repeats a name, and that
/// only for the same serial number.
pub proof fn law_temp_names_differ(
    kind: Seq<char>,
    process_a: nat,
    nanos_a: nat,
    serial_a: nat,
    process_b: nat,
    nanos_b: nat,
    serial_b: nat,
)
    requires
        temp_name_of(kind, process_a, nanos_a, serial_a) == temp_name_of(
            kind,
            process_b,
            nanos_b,
            serial_b,
        ),
    ensures
        process_a == process_b,
        nanos_a == nanos_b,
        serial_a == serial_b,
{
    lemma_temp_name_parts(kind, process_a, nanos_a, serial_a);
    lemma_temp_name_parts(kind, process_b, nanos_b, serial_b);
    lemma_numbers_in_name(
        "version_renamer-"@,
        serial_a,
        '-',
        behind_serial(kind, process_a, nanos_a),
        serial_b,
        behind_serial(kind, process_b, nanos_b),
    );
    let ra = decimal(nanos_a) + seq!['.'] + kind;
    let rb = decimal(nanos_b) + seq!['.'] + kind;
    lemma_numbers_in_name(kind + seq!['-'], process_a, '-', ra, process_b, rb);
    let none = Seq::<char>::empty();
    assert(ra == none + decimal(nanos_a) + seq!['.'] + kind);
    assert(rb == none + decimal(nanos_b) + seq!['.'] + kind);
    lemma_numbers_in_name(none, nanos_a, '.', kind, nanos_b, kind);
}

/// A temporary name ends with a dot and its kind, which is its extension
/// where the kind holds no dot itself.
pub proof fn law_temp_names_have_their_kind(
    kind: Seq<char>,
    process: nat,
    nanos: nat,
    serial: nat,
)
    ensures
        ends_with(temp_name_of(kind, process, nanos, serial), seq!['.'] + kind),
        (forall|i: int| 0 <= i < kind.len() ==> kind[i] != '.') ==> dotted_extension(
            temp_name_of(kind, process, nanos, serial),
        ) == seq!['.'] + kind,
{
    reveal_strlit(".");
    reveal_strlit("version_renamer-");
    assert("."@ == seq!['.']);
    let name = temp_name_of(kind, process, nanos, serial);
    let head = name.take(name.len() - kind.len() - 1);
    assert(head + seq!['.'] + kind == name);
    assert(name.skip(name.len() - kind.len() - 1) == seq!['.'] + kind);
    if forall|i: int| 0 <= i < kind.len() ==> kind[i] != '.' {
        lemma_extension_behind(head, kind);
    }
}

/// An image is told by its headers, wherever behind the start they stand: the
/// place is the number at 0x3C, `PE` and two nulls stand there, the machine
/// type and the number of sections follow, and the section table ends within
/// the first 0x4000 bytes, as far as there are bytes.
pub proof fn law_images_are_told_by_their_headers(bytes: Seq<u8>, machine: u16)
    ensures
        image_machine(bytes) == Some(machine) <==> ({
            let read = if bytes.len() < 0x4000 {
                bytes.len() as int
            } else {
                0x4000
            };
            let pe = bytes[0x3C] + 256 * bytes[0x3D] + 65536 * bytes[0x3E] + 16777216 * bytes[0x3F];
            let sections = bytes[pe + 6] + 256 * bytes[pe + 7];
            let optional = bytes[pe + 20] + 256 * bytes[pe + 21];
            &&& read >= 0x40
            &&& pe + 24 <= read
            &&& bytes[pe] == 0x50 && bytes[pe + 1] == 0x45 && bytes[pe + 2] == 0 && bytes[pe + 3]
                == 0
            &&& machine == bytes[pe + 4] + 256 * bytes[pe + 5]
            &&& 1 <= sections <= 96
            &&& pe + 24 + optional + 40 * sections <= read
        }),
{
    let hdr = header_buffer(bytes);
    let read = header_part(bytes).len() as int;
    assert(hdr.len() == 0x4000);
    assert forall|i: int| 0 <= i < read implies hdr[i] == bytes[i] by {}
    let at = le32(hdr, 0x3C)->0 as int;
    law_patterns_stand_where_their_bytes_are(hdr, at, PE_MAGIC@);
    assert(PE_MAGIC@.len() == 4 && PE_MAGIC@[0] == 0x50 && PE_MAGIC@[1] == 0x45 && PE_MAGIC@[2] == 0
        && PE_MAGIC@[3] == 0);
    if read >= 0x40 {
        assert(hdr[0x3C] == bytes[0x3C] && hdr[0x3D] == bytes[0x3D] && hdr[0x3E] == bytes[0x3E]
            && hdr[0x3F] == bytes[0x3F]);
        if at + 24 <= read {
            assert(hdr[at] == bytes[at] && hdr[at + 1] == bytes[at + 1] && hdr[at + 2] == bytes[at
                + 2] && hdr[at + 3] == bytes[at + 3] && hdr[at + 4] == bytes[at + 4] && hdr[at + 5]
                == bytes[at + 5] && hdr[at + 6] == bytes[at + 6] && hdr[at + 7] == bytes[at + 7]
                && hdr[at + 20] == bytes[at + 20] && hdr[at + 21] == bytes[at + 21]);
            if forall|i: int| 0 <= i < 4 ==> hdr[at + i] == #[trigger] PE_MAGIC@[i] {
                assert(hdr[at + 0] == PE_MAGIC@[0] && hdr[at + 1] == PE_MAGIC@[1] && hdr[at + 2]
                    == PE_MAGIC@[2] && hdr[at + 3] == PE_MAGIC@[3]);
            }
        }
    }
}

/// Whether the file holds an image of a machine type other than that of the
/// shell.
pub open spec fn shows_machine(data: Seq<u8>, shell_arch: Seq<char>, machine: u16) -> bool {
    machine_token(machine) != Some(shell_arch) && exists|o: u64|
        #![trigger all_offsets(Mark::Image, data, 0).contains(o)]
        all_offsets(Mark::Image, data, 0).contains(o) && image_machine(data.skip(o as int)) == Some(
            machine,
        )
}

proof fn lemma_images_evidence(
    data: Seq<u8>,
    offs: Seq<u64>,
    shell_arch: Seq<char>,
    ev: ArchEvidence,
)
    ensures
        images_evidence(data, offs, shell_arch).contains(ev) <==> exists|i: int|
            0 <= i < offs.len() && #[trigger] image_shows(data, offs[i], shell_arch, ev),
    decreases offs.len(),
{
    if offs.len() > 0 {
        let front = offs.drop_last();
        lemma_images_evidence(data, front, shell_arch, ev);
        let before = images_evidence(data, front, shell_arch);
        if let Some(m) = image_machine(bytes_from(data, offs.last())) {
            if let Some(e) = machine_evidence(m, shell_arch) {
                lemma_noted_contains(before, e, ev);
            }
        }
        assert(images_evidence(data, offs, shell_arch).contains(ev) <==> (before.contains(ev)
            || image_shows(data, offs.last(), shell_arch, ev)));
        if before.contains(ev) {
            let i = choose|i: int|
                0 <= i < front.len() && #[trigger] image_shows(data, front[i], shell_arch, ev);
            assert(image_shows(data, offs[i], shell_arch, ev));
        }
        if exists|i: int|
            0 <= i < offs.len() && #[trigger] image_shows(data, offs[i], shell_arch, ev) {
            let i = choose|i: int|
                0 <= i < offs.len() && #[trigger] image_shows(data, offs[i], shell_arch, ev);
            if i < front.len() {
                assert(image_shows(data, front[i], shell_arch, ev));
            }
        }
    }
}

/// Whether the image at an offset is evidence of an architecture.
spec fn image_shows(data: Seq<u8>, off: u64, shell_arch: Seq<char>, ev: ArchEvidence) -> bool {
    image_machine(bytes_from(data, off)) matches Some(m) && machine_evidence(m, shell_arch) == Some(
        ev,
    )
}

proof fn lemma_shown_machines(data: Seq<u8>, shell_arch: Seq<char>, ev: ArchEvidence)
    requires
        data.len() <= u64::MAX,
    ensures
        images_evidence(data, all_offsets(Mark::Image, data, 0), shell_arch).contains(ev)
            <==> exists|m: u16| #[trigger]
            shows_machine(data, shell_arch, m) && machine_evidence(m, shell_arch) == Some(ev),
{
    let offs = all_offsets(Mark::Image, data, 0);
    lemma_images_evidence(data, offs, shell_arch, ev);
    if images_evidence(data, offs, shell_arch).contains(ev) {
        let i = choose|i: int|
            0 <= i < offs.len() && #[trigger] image_shows(data, offs[i], shell_arch, ev);
        let o = offs[i];
        assert(offs.contains(o));
        law_candidates_are_told_by_their_bytes(data, o);
        let m = image_machine(bytes_from(data, o))->0;
        assert(shows_machine(data, shell_arch, m));
    }
    if exists|m: u16| #[trigger]
        shows_machine(data, shell_arch, m) && machine_evidence(m, shell_arch) == Some(ev) {
        let m = choose|m: u16| #[trigger]
            shows_machine(data, shell_arch, m) && machine_evidence(m, shell_arch) == Some(ev);
        let o = choose|o: u64|
            #![trigger all_offsets(Mark::Image, data, 0).contains(o)]
            all_offsets(Mark::Image, data, 0).contains(o) && image_machine(data.skip(o as int))
                == Some(m);
        law_candidates_are_told_by_their_bytes(data, o);
        let i = choose|i: int| 0 <= i < offs.len() && offs[i] == o;
        assert(image_shows(data, offs[i], shell_arch, ev));
    }
}

proof fn lemma_ordinary_candidates(mark: Mark, data: Seq<u8>)
    requires
        data.len() <= 536870912,
        all_offsets(mark, data, 0).len() <= 4096,
    ensures
        in_order(kept(mark, data, BLOCK_SIZE as int)) == all_offsets(mark, data, 0),
{
    let block = BLOCK_SIZE as int;
    law_short_files_are_seen_whole(data.len() as int, block);
    assert(visible(data, block) == data);
    law_few_candidates_are_all_kept(mark, data, block);
    lemma_in_order(kept(mark, data, block));
    lemma_list_is_complete(mark, in_order(kept(mark, data, block)), data, block);
}

/// The images of a file decide, whatever else it holds: the outcome names the
/// architectures of its images other than the shell's, and a machine type
/// outside the supported platforms makes it unknown. This is of files of up to
/// 512 MiB with up to 4096 candidates of either kind.
pub proof fn law_probes_name_the_embedded_images(
    data: Seq<u8>,
    file_len: u64,
    shell_arch: Seq<char>,
    copies: Seq<PackageCopy>,
)
    requires
        data.len() <= 536870912,
        all_offsets(Mark::Image, data, 0).len() <= 4096,
        all_offsets(Mark::Document, data, 0).len() <= 4096,
    ensures
        ({
            let outcome = file_outcome(data, file_len, shell_arch, copies);
            let x86 = shows_machine(data, shell_arch, 0x014C);
            let x64 = shows_machine(data, shell_arch, 0x8664);
            let arm64 = shows_machine(data, shell_arch, 0xAA64);
            let other = exists|m: u16|
                m != 0x014C && m != 0x8664 && m != 0xAA64 && #[trigger] shows_machine(
                    data,
                    shell_arch,
                    m,
                );
            &&& other ==> outcome == ReaderProbeView::Unknown
            &&& !other && x86 && arm64 ==> outcome == ReaderProbeView::Found("x86+arm64"@)
            &&& !other && x86 && !arm64 ==> outcome == ReaderProbeView::Found("x86"@)
            &&& !other && !x86 && x64 && arm64 ==> outcome == ReaderProbeView::Found("x64+arm64"@)
            &&& !other && !x86 && x64 && !arm64 ==> outcome == ReaderProbeView::Found("x64"@)
            &&& !other && !x86 && !x64 && arm64 ==> outcome == ReaderProbeView::Found("arm64"@)
        }),
{
    lemma_ordinary_candidates(Mark::Image, data);
    lemma_image_verdict(data, shell_arch);
}

proof fn lemma_image_verdict(data: Seq<u8>, shell_arch: Seq<char>)
    requires
        data.len() <= u64::MAX,
    ensures
        ({
            let verdict = judged(
                images_evidence(data, all_offsets(Mark::Image, data, 0), shell_arch),
            );
            let x86 = shows_machine(data, shell_arch, 0x014C);
            let x64 = shows_machine(data, shell_arch, 0x8664);
            let arm64 = shows_machine(data, shell_arch, 0xAA64);
            let other = exists|m: u16|
                m != 0x014C && m != 0x8664 && m != 0xAA64 && #[trigger] shows_machine(
                    data,
                    shell_arch,
                    m,
                );
            &&& other ==> verdict == Some(VerdictView::Unknown)
            &&& !other && x86 && arm64 ==> verdict == Some(VerdictView::Arch("x86+arm64"@))
            &&& !other && x86 && !arm64 ==> verdict == Some(VerdictView::Arch("x86"@))
            &&& !other && !x86 && x64 && arm64 ==> verdict == Some(VerdictView::Arch("x64+arm64"@))
            &&& !other && !x86 && x64 && !arm64 ==> verdict == Some(VerdictView::Arch("x64"@))
            &&& !other && !x86 && !x64 && arm64 ==> verdict == Some(VerdictView::Arch("arm64"@))
            &&& !other && !x86 && !x64 && !arm64 ==> verdict is None
        }),
{
    let evidence = images_evidence(data, all_offsets(Mark::Image, data, 0), shell_arch);
    lemma_shown_machines(data, shell_arch, ArchEvidence::X86);
    lemma_shown_machines(data, shell_arch, ArchEvidence::X64);
    lemma_shown_machines(data, shell_arch, ArchEvidence::Arm64);
    lemma_shown_machines(data, shell_arch, ArchEvidence::Unrecognized);
    let x86 = shows_machine(data, shell_arch, 0x014C);
    let x64 = shows_machine(data, shell_arch, 0x8664);
    let arm64 = shows_machine(data, shell_arch, 0xAA64);
    let other = exists|m: u16|
        m != 0x014C && m != 0x8664 && m != 0xAA64 && #[trigger] shows_machine(data, shell_arch, m);
    assert(evidence.contains(ArchEvidence::X86) <==> x86) by {
        law_machines_are_evidence(0x014C, shell_arch);
    }
    assert(evidence.contains(ArchEvidence::X64) <==> x64) by {
        law_machines_are_evidence(0x8664, shell_arch);
    }
    assert(evidence.contains(ArchEvidence::Arm64) <==> arm64) by {
        law_machines_are_evidence(0xAA64, shell_arch);
    }
    assert(evidence.contains(ArchEvidence::Unrecognized) <==> other);
    law_tokens_name_the_evidence(evidence);
    law_unknown_means_unrecognized(evidence);
    if evidence.len() > 0 {
        let first = evidence[0];
        assert(evidence.contains(first));
        assert(x86 || x64 || arm64 || other) by {
            match first {
                ArchEvidence::X86 => {},
                ArchEvidence::X64 => {},
                ArchEvidence::Arm64 => {},
                ArchEvidence::Unrecognized => {},
            }
        }
    }
}

/// Where no image other than the shell's shows, the mark of NSIS asks for an
/// unpack, that of Inno Setup decides nothing, and without either the embedded
/// packages decide. This is of files of up to 512 MiB with up to 4096
/// candidates of either kind.
pub proof fn law_probes_fall_back_on_marks_and_packages(
    data: Seq<u8>,
    file_len: u64,
    shell_arch: Seq<char>,
    copies: Seq<PackageCopy>,
)
    requires
        data.len() <= 536870912,
        all_offsets(Mark::Image, data, 0).len() <= 4096,
        all_offsets(Mark::Document, data, 0).len() <= 4096,
        forall|m: u16| !shows_machine(data, shell_arch, m),
    ensures
        ({
            let outcome = file_outcome(data, file_len, shell_arch, copies);
            let nsis = holds(data, NSIS_MAGIC@);
            let inno = holds(data, INNO_TAG@);
            let evidence = packages_evidence(
                ranges_of(first_documents(all_offsets(Mark::Document, data, 0)), file_len),
                copies,
            );
            &&& nsis ==> outcome == ReaderProbeView::NsisDetected
            &&& !nsis && inno ==> outcome == ReaderProbeView::Inconclusive
            &&& !nsis && !inno && evidence.len() == 0 ==> outcome == ReaderProbeView::Inconclusive
            &&& !nsis && !inno && evidence.len() > 0 && merged(evidence) is None ==> outcome
                == ReaderProbeView::Unknown
            &&& !nsis && !inno && evidence.len() > 0 && merged(evidence) is Some ==> outcome
                == ReaderProbeView::Found(merged(evidence)->0)
        }),
{
    let block = BLOCK_SIZE as int;
    lemma_ordinary_candidates(Mark::Image, data);
    lemma_ordinary_candidates(Mark::Document, data);
    lemma_image_verdict(data, shell_arch);
    law_short_files_are_seen_whole(data.len() as int, block);
    assert(visible(data, block) == data);
    law_windows_show_marks(data, block, NSIS_MAGIC@);
    law_windows_show_marks(data, block, INNO_TAG@);
    let evidence = packages_evidence(
        ranges_of(first_documents(all_offsets(Mark::Document, data, 0)), file_len),
        copies,
    );
    law_tokens_name_the_evidence(evidence);
    law_unknown_means_unrecognized(evidence);
}

proof fn lemma_ranges_contain(offs: Seq<u64>, file_len: u64, range: (u64, u64))
    ensures
        ranges_of(offs, file_len).contains(range) <==> exists|i: int|
            0 <= i < offs.len() && package_range(#[trigger] offs[i], file_len) == Some(range),
    decreases offs.len(),
{
    let all = ranges_of(offs, file_len);
    if offs.len() > 0 {
        let front = offs.drop_last();
        let before = ranges_of(front, file_len);
        lemma_ranges_contain(front, file_len, range);
        if before.contains(range) {
            let i = choose|i: int|
                0 <= i < front.len() && package_range(#[trigger] front[i], file_len) == Some(range);
            assert(offs[i] == front[i]);
            let j = choose|j: int| 0 <= j < before.len() && before[j] == range;
            assert(all[j] == range);
        }
        if package_range(offs.last(), file_len) == Some(range) {
            assert(all.last() == range);
            assert(all.contains(range));
            assert(package_range(offs[offs.len() - 1], file_len) == Some(range));
        }
        if all.contains(range) {
            let j = choose|j: int| 0 <= j < all.len() && all[j] == range;
            if j < before.len() {
                assert(before[j] == range);
            }
        }
        if exists|i: int|
            0 <= i < offs.len() && package_range(#[trigger] offs[i], file_len) == Some(range) {
            let i = choose|i: int|
                0 <= i < offs.len() && package_range(#[trigger] offs[i], file_len) == Some(range);
            if i < front.len() {
                assert(front[i] == offs[i]);
            }
        }
    }
}

/// The parts of a file that may be packages are those that start at one of
/// its first eight documents, run to its end, and have 512 bytes to 2 GiB, in
/// the order of the documents.
pub proof fn law_package_ranges_run_to_the_end(
    documents: Seq<u64>,
    file_len: u64,
    off: u64,
    len: u64,
)
    ensures
        ranges_of(first_documents(documents), file_len).contains((off, len)) <==> (off + len
            == file_len && 512 <= len <= 2147483648 && exists|i: int|
            0 <= i < 8 && i < documents.len() && #[trigger] documents[i] == off),
        ascending(documents) ==> forall|i: int, j: int|
            0 <= i < j < ranges_of(first_documents(documents), file_len).len() ==> (
            #[trigger] ranges_of(first_documents(documents), file_len)[i]).0 < (
            #[trigger] ranges_of(first_documents(documents), file_len)[j]).0,
{
    let offs = first_documents(documents);
    lemma_ranges_contain(offs, file_len, (off, len));
    if ranges_of(offs, file_len).contains((off, len)) {
        let i = choose|i: int|
            0 <= i < offs.len() && package_range(#[trigger] offs[i], file_len) == Some((off, len));
        assert(documents[i] == off);
    }
    if off + len == file_len && 512 <= len <= 2147483648 && exists|i: int|
        0 <= i < 8 && i < documents.len() && #[trigger] documents[i] == off {
        let i = choose|i: int|
            0 <= i < 8 && i < documents.len() && #[trigger] documents[i] == off;
        assert(offs[i] == off);
    }
    if ascending(documents) {
        assert forall|i: int, j: int| 0 <= i < j < offs.len() implies offs[i] < offs[j] by {
            assert(documents[i] < documents[j]);
        }
        lemma_ranges_ascend(offs, file_len);
    }
}

proof fn lemma_ranges_ascend(offs: Seq<u64>, file_len: u64)
    requires
        ascending(offs),
    ensures
        forall|i: int, j: int|
            0 <= i < j < ranges_of(offs, file_len).len() ==> (#[trigger] ranges_of(
                offs,
                file_len,
            )[i]).0 < (#[trigger] ranges_of(offs, file_len)[j]).0,
    decreases offs.len(),
{
    if offs.len() > 0 {
        let front = offs.drop_last();
        lemma_ranges_ascend(front, file_len);
        let before = ranges_of(front, file_len);
        let all = ranges_of(offs, file_len);
        assert forall|i: int, j: int| 0 <= i < j < all.len() implies (#[trigger] all[i]).0 < (
        #[trigger] all[j]).0 by {
            if j == before.len() {
                lemma_ranges_contain(front, file_len, before[i]);
                assert(before.contains(before[i]));
                let k = choose|k: int|
                    0 <= k < front.len() && package_range(#[trigger] front[k], file_len) == Some(
                        before[i],
                    );
                assert(offs[k] < offs[offs.len() - 1]);
            }
        }
    }
}

/// A package is evidence by its template where its copy is complete, and only
/// there.
pub proof fn law_complete_copies_are_evidence(
    ranges: Seq<(u64, u64)>,
    copies: Seq<PackageCopy>,
    ev: ArchEvidence,
)
    ensures
        packages_evidence(ranges, copies).contains(ev) <==> exists|i: int|
            #![trigger ranges[i], copies[i]]
            0 <= i < ranges.len() && i < copies.len() && copies[i].copied == ranges[i].1
                && copies[i].template is Some && template_evidence(
                copies[i].template->0@,
            ).contains(ev),
{
    let n = if ranges.len() < copies.len() {
        ranges.len() as int
    } else {
        copies.len() as int
    };
    lemma_copies_evidence(ranges, copies, n, ev);
}

proof fn lemma_copies_evidence(
    ranges: Seq<(u64, u64)>,
    copies: Seq<PackageCopy>,
    n: int,
    ev: ArchEvidence,
)
    requires
        n <= ranges.len(),
        n <= copies.len(),
    ensures
        copies_evidence(ranges, copies, n).contains(ev) <==> exists|i: int|
            #![trigger ranges[i], copies[i]]
            0 <= i < n && copies[i].copied == ranges[i].1 && copies[i].template is Some
                && template_evidence(copies[i].template->0@).contains(ev),
    decreases n,
{
    if n > 0 {
        lemma_copies_evidence(ranges, copies, n - 1, ev);
        let before = copies_evidence(ranges, copies, n - 1);
        let more = copy_evidence(ranges[n - 1].1, copies[n - 1]);
        lemma_all_noted_contains(before, more, ev);
        assert(more.contains(ev) <==> copies[n - 1].copied == ranges[n - 1].1 && copies[n
            - 1].template is Some && template_evidence(copies[n - 1].template->0@).contains(ev));
    }
}

/// An unpacked file is evidence if it is an executable of an architecture
/// other than the shell's, or a package that names one, and nothing else is.
pub proof fn law_unpacked_files_are_evidence(
    files: Seq<UnpackedFile>,
    shell_arch: Seq<char>,
    ev: ArchEvidence,
)
    ensures
        files_evidence(files, shell_arch).contains(ev) <==> exists|i: int|
            0 <= i < files.len() && match #[trigger] files[i] {
                UnpackedFile::Executable(arch) => arch@ != shell_arch && ((arch@ == "x86"@ && ev
                    == ArchEvidence::X86) || (arch@ == "x64"@ && ev == ArchEvidence::X64) || (arch@
                    == "arm64"@ && ev == ArchEvidence::Arm64) || (arch@ == "arm"@ && ev
                    == ArchEvidence::Unrecognized)),
                UnpackedFile::Package(Some(template)) => template_evidence(template@).contains(ev),
                _ => false,
            },
        files_evidence(files, shell_arch).len() == 0 ==> unpacked_verdict(files, shell_arch)
            == VerdictView::NoEvidence,
        files_evidence(files, shell_arch).len() > 0 ==> unpacked_verdict(files, shell_arch) == (
        match merged(files_evidence(files, shell_arch)) {
            Some(arch) => VerdictView::Arch(arch),
            None => VerdictView::Unknown,
        }),
{
    lemma_files_evidence(files, shell_arch, ev);
    assert forall|i: int| 0 <= i < files.len() implies (file_shows(
        #[trigger] files[i],
        shell_arch,
        ev,
    ) <==> match files[i] {
        UnpackedFile::Executable(arch) => arch@ != shell_arch && ((arch@ == "x86"@ && ev
            == ArchEvidence::X86) || (arch@ == "x64"@ && ev == ArchEvidence::X64) || (arch@
            == "arm64"@ && ev == ArchEvidence::Arm64) || (arch@ == "arm"@ && ev
            == ArchEvidence::Unrecognized)),
        UnpackedFile::Package(Some(template)) => template_evidence(template@).contains(ev),
        _ => false,
    }) by {
        if let UnpackedFile::Executable(arch) = files[i] {
            law_binary_tokens_are_evidence(arch@);
        }
    }
    if files_evidence(files, shell_arch).contains(ev) {
        let i = choose|i: int|
            0 <= i < files.len() && #[trigger] file_shows(files[i], shell_arch, ev);
        assert(0 <= i < files.len());
    }
}

/// Unpacked files are told by their extension, in either case: executables,
/// packages and nested archives. Others are not looked at.
pub proof fn law_unpacked_files_are_told_by_extension(extension: Option<String>)
    ensures
        kind_of(extension) == PayloadKind::Executable <==> (extension matches Some(e) && lower(e@)
            == "exe"@),
        kind_of(extension) == PayloadKind::Package <==> (extension matches Some(e) && lower(e@)
            == "msi"@),
        is_container(extension) <==> (extension matches Some(e) && (lower(e@) == "7z"@ || lower(e@)
            == "zip"@)),
{
    reveal_strlit("exe");
    reveal_strlit("msi");
    assert("exe"@[0] != "msi"@[0]);
}

/// What the bytes of a file tell is final, except for NSIS, where the unpacked
/// contents decide; a file that cannot be opened decides nothing.
pub proof fn law_probes_are_concluded(
    found: Option<ReaderProbeView>,
    unpacked: VerdictView,
    arch: Seq<char>,
)
    ensures
        content_outcome(found, unpacked) == ContentProbeView::Found(arch) <==> (found == Some(
            ReaderProbeView::Found(arch),
        ) || (found == Some(ReaderProbeView::NsisDetected) && unpacked == VerdictView::Arch(arch))),
        content_outcome(found, unpacked) == ContentProbeView::Unknown <==> (found == Some(
            ReaderProbeView::Unknown,
        ) || (found == Some(ReaderProbeView::NsisDetected) && unpacked == VerdictView::Unknown)),
{
}

/// Of the nested archives the largest is taken, and of several of that size
/// the last.
pub proof fn law_the_largest_archive_is_taken(files: Seq<UnpackedEntry>, i: int, j: int)
    requires
        is_largest_container(files, i),
        0 <= j < files.len(),
        files[j].extension matches Some(e) && (lower(e@) == "7z"@ || lower(e@) == "zip"@),
    ensures
        files[j].len < files[i].len || (files[j].len == files[i].len && j <= i),
        files[i].extension matches Some(e) && (lower(e@) == "7z"@ || lower(e@) == "zip"@),
{
    assert(is_container(files[j].extension));
}

/// Every image counts, wherever it stands among the candidates and however
/// many there are: the evidence is what the machine types of all of them are
/// evidence of.
pub proof fn law_every_image_counts(
    data: Seq<u8>,
    offs: Seq<u64>,
    shell_arch: Seq<char>,
    ev: ArchEvidence,
)
    requires
        forall|i: int| 0 <= i < offs.len() ==> (#[trigger] offs[i]) < data.len(),
    ensures
        images_evidence(data, offs, shell_arch).contains(ev) <==> exists|i: int, m: u16|
            #![trigger offs[i], machine_evidence(m, shell_arch)]
            0 <= i < offs.len() && image_machine(data.skip(offs[i] as int)) == Some(m)
                && machine_evidence(m, shell_arch) == Some(ev),
{
    lemma_images_evidence(data, offs, shell_arch, ev);
    if images_evidence(data, offs, shell_arch).contains(ev) {
        let i = choose|i: int|
            0 <= i < offs.len() && #[trigger] image_shows(data, offs[i], shell_arch, ev);
        let m = image_machine(bytes_from(data, offs[i]))->0;
        assert(machine_evidence(m, shell_arch) == Some(ev));
    }
    if exists|i: int, m: u16|
        #![trigger offs[i], machine_evidence(m, shell_arch)]
        0 <= i < offs.len() && image_machine(data.skip(offs[i] as int)) == Some(m)
            && machine_evidence(m, shell_arch) == Some(ev) {
        let (i, m) = choose|i: int, m: u16|
            #![trigger offs[i], machine_evidence(m, shell_arch)]
            0 <= i < offs.len() && image_machine(data.skip(offs[i] as int)) == Some(m)
                && machine_evidence(m, shell_arch) == Some(ev);
        assert(image_shows(data, offs[i], shell_arch, ev));
    }
}

/// The probe of any file follows its scan: the images that were found decide,
/// then the marks of installers, and then the packages.
pub proof fn law_probes_follow_the_scan(
    scan: Scan,
    data: Seq<u8>,
    file_len: u64,
    shell_arch: Seq<char>,
    copies: Seq<PackageCopy>,
)
    requires
        reports(scan, data, 1048576),
    ensures
        ({
            let outcome = file_outcome(data, file_len, shell_arch, copies);
            let images = images_evidence(data, scan.mz_candidates@, shell_arch);
            let packages = packages_evidence(
                ranges_of(first_documents(scan.ole_candidates@), file_len),
                copies,
            );
            let evidence = if images.len() > 0 {
                images
            } else {
                packages
            };
            let decided = images.len() > 0 || (!scan.is_nsis && !scan.is_inno && packages.len()
                > 0);
            &&& decided && merged(evidence) is Some ==> outcome == ReaderProbeView::Found(
                merged(evidence)->0,
            )
            &&& decided && merged(evidence) is None ==> outcome == ReaderProbeView::Unknown
            &&& !decided && scan.is_nsis ==> outcome == ReaderProbeView::NsisDetected
            &&& !decided && !scan.is_nsis ==> outcome == ReaderProbeView::Inconclusive
        }),
{
    let images = kept(Mark::Image, data, 1048576);
    let documents = kept(Mark::Document, data, 1048576);
    lemma_in_order(images);
    lemma_in_order(documents);
    lemma_ordered_set_unique(scan.mz_candidates@, in_order(images), images);
    lemma_ordered_set_unique(scan.ole_candidates@, in_order(documents), documents);
}

} // verus!
