//! Evidence for the architecture of a payload, and the `{Arch}` token that a
//! set of evidence merges into.
use crate::text::{
    chars_of, find, is_white, law_trimming_takes_off_white_space, lemma_find, lemma_lower_lower,
    lemma_split_cons, lemma_split_lower, lemma_trim_lower, lower, same_str, same_text, split,
    split_text, to_lower, trim, trim_text,
};
use vstd::prelude::*;

verus! {

/// One item of payload architecture evidence.
#[derive(Debug, Clone, Copy, PartialEq, Eq, Structural)]
pub enum ArchEvidence {
    X86,
    X64,
    Arm64,
    /// ARM32 or any other machine type outside the three supported
    /// platforms; its presence makes the whole verdict unknown.
    Unrecognized,
}

/// Verdict for a set of payload architecture evidence.
#[derive(Debug)]
pub enum PayloadVerdict {
    /// The evidence merged into one token: a plain architecture or a
    /// combined one such as `x86+arm64`.
    Arch(String),
    /// Evidence exists but names machine types outside the supported
    /// platforms, so no architecture can be attributed.
    Unknown,
    /// No usable payload evidence was found.
    NoEvidence,
}

/// The model of a verdict.
pub enum VerdictView {
    Arch(Seq<char>),
    Unknown,
    NoEvidence,
}

impl View for PayloadVerdict {
    type V = VerdictView;

    open spec fn view(&self) -> VerdictView {
        match self {
            PayloadVerdict::Arch(s) => VerdictView::Arch(s@),
            PayloadVerdict::Unknown => VerdictView::Unknown,
            PayloadVerdict::NoEvidence => VerdictView::NoEvidence,
        }
    }
}

/// The model of an optional verdict.
pub open spec fn verdict_view(v: Option<PayloadVerdict>) -> Option<VerdictView> {
    match v {
        Some(v) => Some(v@),
        None => None,
    }
}

/// The model of an optional string.
pub open spec fn text_view(s: Option<&'static str>) -> Option<Seq<char>> {
    match s {
        Some(s) => Some(s@),
        None => None,
    }
}

// ---------------------------------------------------------------------
// Merging
// ---------------------------------------------------------------------

/// The token that a set of evidence merges into: x86 subsumes x64, arm64
/// pairs with whichever x86 flavour is present, and an unrecognized machine
/// type leaves no token.
pub open spec fn merged(evidence: Seq<ArchEvidence>) -> Option<Seq<char>> {
    let x86 = evidence.contains(ArchEvidence::X86);
    let x64 = evidence.contains(ArchEvidence::X64);
    let arm64 = evidence.contains(ArchEvidence::Arm64);
    if evidence.contains(ArchEvidence::Unrecognized) {
        None
    } else if x86 && arm64 {
        Some("x86+arm64"@)
    } else if x86 {
        Some("x86"@)
    } else if x64 && arm64 {
        Some("x64+arm64"@)
    } else if x64 {
        Some("x64"@)
    } else if arm64 {
        Some("arm64"@)
    } else {
        None
    }
}

/// The verdict that a set of evidence allows; none without any evidence.
pub open spec fn judged(evidence: Seq<ArchEvidence>) -> Option<VerdictView> {
    if evidence.len() == 0 {
        None
    } else {
        Some(
            match merged(evidence) {
                Some(arch) => VerdictView::Arch(arch),
                None => VerdictView::Unknown,
            },
        )
    }
}

/// A set of evidence with one more item, listed once.
pub open spec fn noted(evidence: Seq<ArchEvidence>, ev: ArchEvidence) -> Seq<ArchEvidence> {
    if evidence.contains(ev) {
        evidence
    } else {
        evidence.push(ev)
    }
}

/// A set of evidence with further items, each listed once.
pub open spec fn all_noted(evidence: Seq<ArchEvidence>, more: Seq<ArchEvidence>) -> Seq<
    ArchEvidence,
>
    decreases more.len(),
{
    if more.len() == 0 {
        evidence
    } else {
        noted(all_noted(evidence, more.drop_last()), more.last())
    }
}

/// Whether the item is part of the evidence.
pub fn contains(evidence: &[ArchEvidence], ev: ArchEvidence) -> (r: bool)
    ensures
        r == evidence@.contains(ev),
{
    for i in 0..evidence.len()
        invariant
            forall|j: int| 0 <= j < i ==> evidence@[j] != ev,
    {
        if evidence[i] == ev {
            assert(evidence@[i as int] == ev);
            return true;
        }
    }
    false
}

/// Merges payload evidence into the `{Arch}` token. Empty evidence also
/// yields none; callers decide whether that means "no evidence" or an
/// explicit unknown.
pub fn merge_architectures(evidence: &[ArchEvidence]) -> (token: Option<&'static str>)
    ensures
        text_view(token) == merged(evidence@),
{
    if contains(evidence, ArchEvidence::Unrecognized) {
        return None;
    }
    let x86 = contains(evidence, ArchEvidence::X86);
    let x64 = contains(evidence, ArchEvidence::X64);
    let arm64 = contains(evidence, ArchEvidence::Arm64);
    if x86 && arm64 {
        Some("x86+arm64")
    } else if x86 {
        Some("x86")
    } else if x64 && arm64 {
        Some("x64+arm64")
    } else if x64 {
        Some("x64")
    } else if arm64 {
        Some("arm64")
    } else {
        None
    }
}

/// Merges a collected evidence set into a payload verdict; none when no
/// evidence was collected at all.
pub fn verdict_from_evidence(evidence: &[ArchEvidence]) -> (verdict: Option<PayloadVerdict>)
    ensures
        verdict_view(verdict) == judged(evidence@),
{
    if evidence.len() == 0 {
        return None;
    }
    match merge_architectures(evidence) {
        Some(arch) => Some(PayloadVerdict::Arch(arch.to_owned())),
        None => Some(PayloadVerdict::Unknown),
    }
}

/// Adds an item to the evidence unless it is already there.
pub fn note(evidence: &mut Vec<ArchEvidence>, ev: ArchEvidence)
    ensures
        final(evidence)@ == noted(old(evidence)@, ev),
{
    if !contains(evidence.as_slice(), ev) {
        evidence.push(ev);
    }
}

/// Adds items to the evidence, each unless it is already there.
pub fn note_all(evidence: &mut Vec<ArchEvidence>, more: &[ArchEvidence])
    ensures
        final(evidence)@ == all_noted(old(evidence)@, more@),
{
    for i in 0..more.len()
        invariant
            evidence@ == all_noted(old(evidence)@, more@.take(i as int)),
    {
        note(evidence, more[i]);
        assert(more@.take(i + 1).drop_last() == more@.take(i as int));
        assert(more@.take(i + 1).last() == more@[i as int]);
    }
    assert(more@.take(more.len() as int) == more@);
}

// ---------------------------------------------------------------------
// Sources of evidence
// ---------------------------------------------------------------------

/// The `{Arch}` token of a COFF machine type; none outside the supported
/// platforms (ARM32 included).
pub open spec fn machine_token(machine: u16) -> Option<Seq<char>> {
    if machine == 0x014C {
        Some("x86"@)
    } else if machine == 0x8664 {
        Some("x64"@)
    } else if machine == 0xAA64 {
        Some("arm64"@)
    } else {
        None
    }
}

/// The evidence that a COFF machine type gives; none where it matches the
/// architecture of the shell, since installer machinery matches its loader.
pub open spec fn machine_evidence(machine: u16, shell_arch: Seq<char>) -> Option<ArchEvidence> {
    if machine_token(machine) == Some(shell_arch) {
        None
    } else if machine == 0x014C {
        Some(ArchEvidence::X86)
    } else if machine == 0x8664 {
        Some(ArchEvidence::X64)
    } else if machine == 0xAA64 {
        Some(ArchEvidence::Arm64)
    } else {
        Some(ArchEvidence::Unrecognized)
    }
}

/// The evidence behind a binary architecture token. ARM32 counts as
/// unrecognized; any other token carries no evidence.
pub open spec fn token_evidence(arch: Seq<char>) -> Option<ArchEvidence> {
    if arch == "x86"@ {
        Some(ArchEvidence::X86)
    } else if arch == "x64"@ {
        Some(ArchEvidence::X64)
    } else if arch == "arm64"@ {
        Some(ArchEvidence::Arm64)
    } else if arch == "arm"@ {
        Some(ArchEvidence::Unrecognized)
    } else {
        None
    }
}

/// The evidence behind one platform of an MSI template, in lower case.
pub open spec fn platform_evidence(platform: Seq<char>) -> Option<ArchEvidence> {
    if platform == "intel"@ || platform == "x86"@ {
        Some(ArchEvidence::X86)
    } else if platform == "intel64"@ || platform == "amd64"@ || platform == "x64"@ {
        Some(ArchEvidence::X64)
    } else if platform == "arm64"@ {
        Some(ArchEvidence::Arm64)
    } else if platform == "arm"@ {
        Some(ArchEvidence::Unrecognized)
    } else {
        None
    }
}

/// The evidence of the pieces of a template, in order; unknown pieces are
/// skipped.
pub open spec fn pieces_evidence(pieces: Seq<Seq<char>>) -> Seq<ArchEvidence>
    decreases pieces.len(),
{
    if pieces.len() == 0 {
        seq![]
    } else {
        let before = pieces_evidence(pieces.drop_last());
        match platform_evidence(lower(trim(pieces.last()))) {
            Some(ev) => before.push(ev),
            None => before,
        }
    }
}

/// The evidence of an MSI template such as `Intel;1033`.
pub open spec fn template_evidence(template: Seq<char>) -> Seq<ArchEvidence> {
    pieces_evidence(split(template, ';'))
}

/// The `{Arch}` token of an MSI template; `unknown` without a token.
pub open spec fn template_token(template: Seq<char>) -> Seq<char> {
    match merged(template_evidence(template)) {
        Some(arch) => arch,
        None => "unknown"@,
    }
}

/// The COFF machine type as an `{Arch}` token.
pub fn machine_name(machine: u16) -> (name: Option<&'static str>)
    ensures
        text_view(name) == machine_token(machine),
{
    if machine == 0x014C {
        Some("x86")
    } else if machine == 0x8664 {
        Some("x64")
    } else if machine == 0xAA64 {
        Some("arm64")
    } else {
        None
    }
}

/// The evidence that the machine type of an embedded image gives.
pub fn image_evidence(machine: u16, shell_arch: &str) -> (ev: Option<ArchEvidence>)
    ensures
        ev == machine_evidence(machine, shell_arch@),
{
    if let Some(name) = machine_name(machine) {
        if same_str(name, shell_arch) {
            return None;
        }
    }
    if machine == 0x014C {
        Some(ArchEvidence::X86)
    } else if machine == 0x8664 {
        Some(ArchEvidence::X64)
    } else if machine == 0xAA64 {
        Some(ArchEvidence::Arm64)
    } else {
        Some(ArchEvidence::Unrecognized)
    }
}

/// Maps a binary architecture token to its evidence.
pub fn arch_evidence(arch: &str) -> (ev: Option<ArchEvidence>)
    ensures
        ev == token_evidence(arch@),
{
    if same_str(arch, "x86") {
        Some(ArchEvidence::X86)
    } else if same_str(arch, "x64") {
        Some(ArchEvidence::X64)
    } else if same_str(arch, "arm64") {
        Some(ArchEvidence::Arm64)
    } else if same_str(arch, "arm") {
        Some(ArchEvidence::Unrecognized)
    } else {
        None
    }
}

fn platform_of(platform: &[char]) -> (ev: Option<ArchEvidence>)
    ensures
        ev == platform_evidence(platform@),
{
    if same_text(platform, "intel") || same_text(platform, "x86") {
        Some(ArchEvidence::X86)
    } else if same_text(platform, "intel64") || same_text(platform, "amd64") || same_text(
        platform,
        "x64",
    ) {
        Some(ArchEvidence::X64)
    } else if same_text(platform, "arm64") {
        Some(ArchEvidence::Arm64)
    } else if same_text(platform, "arm") {
        Some(ArchEvidence::Unrecognized)
    } else {
        None
    }
}

/// Parses the platforms of an MSI `Template` property into payload evidence.
/// Unknown tokens are skipped; the legacy 32-bit `Arm` platform counts as
/// unrecognized.
pub fn msi_template_evidence(template: &str) -> (evidence: Vec<ArchEvidence>)
    ensures
        evidence@ == template_evidence(template@),
{
    let chars = chars_of(template);
    let parts = split_text(chars.as_slice(), ';');
    let ghost pieces = parts@.map_values(|p: Vec<char>| p@);
    let mut evidence: Vec<ArchEvidence> = Vec::new();
    for i in 0..parts.len()
        invariant
            pieces == parts@.map_values(|p: Vec<char>| p@),
            evidence@ == pieces_evidence(pieces.take(i as int)),
    {
        let platform = to_lower(trim_text(parts[i].as_slice()).as_slice());
        proof {
            assert(pieces.take(i + 1).drop_last() == pieces.take(i as int));
            assert(pieces.take(i + 1).last() == parts@[i as int]@);
        }
        if let Some(ev) = platform_of(platform.as_slice()) {
            evidence.push(ev);
        }
    }
    assert(pieces.take(parts.len() as int) == pieces);
    evidence
}

/// The `{Arch}` token of an MSI `Template` property, merging multi-platform
/// templates (`Intel;AMD64;Arm64;1033` gives `x86+arm64`).
pub fn msi_arch_token(template: &str) -> (token: String)
    ensures
        token@ == template_token(template@),
{
    let evidence = msi_template_evidence(template);
    match merge_architectures(evidence.as_slice()) {
        Some(arch) => arch.to_owned(),
        None => "unknown".to_owned(),
    }
}

// ---------------------------------------------------------------------
// Laws
// ---------------------------------------------------------------------

/// The token depends on which evidence there is, not on its order or on how
/// often it was found.
pub proof fn law_merging_ignores_order(a: Seq<ArchEvidence>, b: Seq<ArchEvidence>)
    requires
        forall|ev: ArchEvidence| a.contains(ev) <==> b.contains(ev),
    ensures
        merged(a) == merged(b),
        judged(a) == judged(b),
{
    if a.len() == 0 && b.len() > 0 {
        assert(b.contains(b[0]));
        assert(a.contains(b[0]));
    }
    if b.len() == 0 && a.len() > 0 {
        assert(a.contains(a[0]));
        assert(b.contains(a[0]));
    }
}

proof fn lemma_push_contains(s: Seq<ArchEvidence>, ev: ArchEvidence, x: ArchEvidence)
    ensures
        s.push(ev).contains(x) <==> (s.contains(x) || x == ev),
{
    if s.contains(x) {
        let i = choose|i: int| 0 <= i < s.len() && s[i] == x;
        assert(s.push(ev)[i] == x);
    }
    if x == ev {
        assert(s.push(ev)[s.len() as int] == x);
    }
    if s.push(ev).contains(x) {
        let i = choose|i: int| 0 <= i < s.push(ev).len() && s.push(ev)[i] == x;
        if i < s.len() {
            assert(s[i] == x);
        }
    }
}

/// Evidence that is noted is listed, and nothing else is.
pub proof fn lemma_noted_contains(evidence: Seq<ArchEvidence>, ev: ArchEvidence, x: ArchEvidence)
    ensures
        noted(evidence, ev).contains(x) <==> (evidence.contains(x) || x == ev),
{
    lemma_push_contains(evidence, ev, x);
}

/// Evidence that is noted is listed, and nothing else is.
pub proof fn lemma_all_noted_contains(
    evidence: Seq<ArchEvidence>,
    more: Seq<ArchEvidence>,
    x: ArchEvidence,
)
    ensures
        all_noted(evidence, more).contains(x) <==> (evidence.contains(x) || more.contains(x)),
    decreases more.len(),
{
    if more.len() > 0 {
        let front = more.drop_last();
        lemma_all_noted_contains(evidence, front, x);
        lemma_noted_contains(all_noted(evidence, front), more.last(), x);
        lemma_push_contains(front, more.last(), x);
        assert(front.push(more.last()) == more);
    }
}

/// Listing an item once or several times gives the same token.
pub proof fn law_noting_keeps_the_verdict(evidence: Seq<ArchEvidence>, ev: ArchEvidence)
    ensures
        merged(noted(evidence, ev)) == merged(evidence.push(ev)),
        judged(noted(evidence, ev)) == judged(evidence.push(ev)),
{
    assert forall|x: ArchEvidence|
        noted(evidence, ev).contains(x) <==> evidence.push(ev).contains(x) by {
        lemma_push_contains(evidence, ev, x);
    }
    law_merging_ignores_order(noted(evidence, ev), evidence.push(ev));
}

/// x86 subsumes x64: where there is x86 evidence, x64 evidence adds nothing.
pub proof fn law_x86_subsumes_x64(evidence: Seq<ArchEvidence>)
    requires
        evidence.contains(ArchEvidence::X86),
    ensures
        merged(evidence.push(ArchEvidence::X64)) == merged(evidence),
{
    lemma_push_contains(evidence, ArchEvidence::X64, ArchEvidence::X86);
    lemma_push_contains(evidence, ArchEvidence::X64, ArchEvidence::X64);
    lemma_push_contains(evidence, ArchEvidence::X64, ArchEvidence::Arm64);
    lemma_push_contains(evidence, ArchEvidence::X64, ArchEvidence::Unrecognized);
}

/// arm64 pairs with whichever x86 flavour the other evidence merges into.
pub proof fn law_arm64_pairs(evidence: Seq<ArchEvidence>)
    requires
        merged(evidence) is Some,
        !evidence.contains(ArchEvidence::Arm64),
    ensures
        merged(evidence.push(ArchEvidence::Arm64)) == Some(merged(evidence)->0 + "+arm64"@),
{
    lemma_push_contains(evidence, ArchEvidence::Arm64, ArchEvidence::X86);
    lemma_push_contains(evidence, ArchEvidence::Arm64, ArchEvidence::X64);
    lemma_push_contains(evidence, ArchEvidence::Arm64, ArchEvidence::Arm64);
    lemma_push_contains(evidence, ArchEvidence::Arm64, ArchEvidence::Unrecognized);
    reveal_strlit("x86");
    reveal_strlit("x64");
    reveal_strlit("+arm64");
    reveal_strlit("x86+arm64");
    reveal_strlit("x64+arm64");
    assert("x86"@ + "+arm64"@ == "x86+arm64"@);
    assert("x64"@ + "+arm64"@ == "x64+arm64"@);
}

/// The verdict is unknown exactly where the evidence contains a machine type
/// outside the supported platforms.
pub proof fn law_unknown_means_unrecognized(evidence: Seq<ArchEvidence>)
    ensures
        judged(evidence) == Some(VerdictView::Unknown) <==> evidence.contains(
            ArchEvidence::Unrecognized,
        ),
        judged(evidence) is None <==> evidence.len() == 0,
{
    if evidence.len() > 0 {
        let first = evidence[0];
        assert(evidence.contains(first));
        match first {
            ArchEvidence::X86 => {},
            ArchEvidence::X64 => {},
            ArchEvidence::Arm64 => {},
            ArchEvidence::Unrecognized => {},
        }
    }
}

/// An embedded image of the architecture of the shell is no evidence.
pub proof fn law_shell_images_are_ignored(machine: u16, shell_arch: Seq<char>)
    ensures
        machine_evidence(machine, shell_arch) is None <==> machine_token(machine) == Some(
            shell_arch,
        ),
{
}

proof fn lemma_pieces_lower(pieces: Seq<Seq<char>>)
    ensures
        pieces_evidence(pieces.map_values(|p: Seq<char>| lower(p))) == pieces_evidence(pieces),
    decreases pieces.len(),
{
    let low = pieces.map_values(|p: Seq<char>| lower(p));
    if pieces.len() > 0 {
        lemma_pieces_lower(pieces.drop_last());
        assert(low.drop_last() == pieces.drop_last().map_values(|p: Seq<char>| lower(p)));
        assert(low.last() == lower(pieces.last()));
        lemma_trim_lower(pieces.last());
        lemma_lower_lower(trim(pieces.last()));
    }
}

/// Letter case makes no difference in a template.
pub proof fn law_template_ignores_case(a: Seq<char>, b: Seq<char>)
    requires
        lower(a) == lower(b),
    ensures
        template_evidence(a) == template_evidence(b),
        template_token(a) == template_token(b),
{
    lemma_split_lower(a, ';');
    lemma_split_lower(b, ';');
    lemma_pieces_lower(split(a, ';'));
    lemma_pieces_lower(split(b, ';'));
}

/// The token names the architectures that there is evidence of: arm64 shows
/// in it exactly where it was found, x86 stands for x64 too, and a machine type
/// outside the supported platforms, or no evidence at all, leaves no token.
pub proof fn law_tokens_name_the_evidence(evidence: Seq<ArchEvidence>)
    ensures
        ({
            let x86 = evidence.contains(ArchEvidence::X86);
            let x64 = evidence.contains(ArchEvidence::X64);
            let arm64 = evidence.contains(ArchEvidence::Arm64);
            let known = !evidence.contains(ArchEvidence::Unrecognized);
            &&& known && x86 && !arm64 ==> merged(evidence) == Some("x86"@)
            &&& known && x86 && arm64 ==> merged(evidence) == Some("x86+arm64"@)
            &&& known && !x86 && x64 && !arm64 ==> merged(evidence) == Some("x64"@)
            &&& known && !x86 && x64 && arm64 ==> merged(evidence) == Some("x64+arm64"@)
            &&& known && !x86 && !x64 && arm64 ==> merged(evidence) == Some("arm64"@)
            &&& !known || !(x86 || x64 || arm64) ==> merged(evidence) is None
            &&& judged(evidence) is Some && merged(evidence) is Some ==> judged(evidence) == Some(
                VerdictView::Arch(merged(evidence)->0),
            )
            &&& judged(evidence) is Some && merged(evidence) is None ==> judged(evidence) == Some(
                VerdictView::Unknown,
            )
        }),
{
}

/// Three machine types have a token; every machine type but that of the shell
/// is evidence, and one without a token is evidence of nothing known.
pub proof fn law_machines_are_evidence(machine: u16, shell_arch: Seq<char>)
    ensures
        machine == 0x014C ==> machine_token(machine) == Some("x86"@),
        machine == 0x8664 ==> machine_token(machine) == Some("x64"@),
        machine == 0xAA64 ==> machine_token(machine) == Some("arm64"@),
        machine != 0x014C && machine != 0x8664 && machine != 0xAA64 ==> machine_token(machine)
            is None,
        machine == 0x014C && shell_arch != "x86"@ ==> machine_evidence(machine, shell_arch) == Some(
            ArchEvidence::X86,
        ),
        machine == 0x8664 && shell_arch != "x64"@ ==> machine_evidence(machine, shell_arch) == Some(
            ArchEvidence::X64,
        ),
        machine == 0xAA64 && shell_arch != "arm64"@ ==> machine_evidence(machine, shell_arch)
            == Some(ArchEvidence::Arm64),
        machine != 0x014C && machine != 0x8664 && machine != 0xAA64 ==> machine_evidence(
            machine,
            shell_arch,
        ) == Some(ArchEvidence::Unrecognized),
{
}

/// Four tokens of binaries are evidence, and no other text is.
pub proof fn law_binary_tokens_are_evidence(arch: Seq<char>)
    ensures
        arch == "x86"@ ==> token_evidence(arch) == Some(ArchEvidence::X86),
        arch == "x64"@ ==> token_evidence(arch) == Some(ArchEvidence::X64),
        arch == "arm64"@ ==> token_evidence(arch) == Some(ArchEvidence::Arm64),
        arch == "arm"@ ==> token_evidence(arch) == Some(ArchEvidence::Unrecognized),
        arch != "x86"@ && arch != "x64"@ && arch != "arm64"@ && arch != "arm"@ ==> token_evidence(
            arch,
        ) is None,
{
    reveal_strlit("x86");
    reveal_strlit("x64");
    reveal_strlit("arm64");
    reveal_strlit("arm");
    assert("x86"@[1] != "x64"@[1]);
    assert("arm"@.len() != "arm64"@.len());
    assert("arm"@[0] != "x86"@[0]);
    assert("arm"@[0] != "x64"@[0]);
    assert("x86"@.len() != "arm64"@.len());
}

proof fn lemma_split_join(a: Seq<char>, c: char, b: Seq<char>)
    ensures
        split(a + seq![c] + b, c) == split(a, c) + split(b, c),
    decreases a.len(),
{
    lemma_find(a, c);
    let at = find(a, c);
    if at == a.len() {
        lemma_split_cons(a, c, b);
    } else {
        let head = a.take(at);
        let rest = a.skip(at + 1);
        assert(a == head + seq![c] + rest);
        assert(a + seq![c] + b == head + seq![c] + (rest + seq![c] + b));
        assert forall|i: int| 0 <= i < head.len() implies head[i] != c by {
            assert(head[i] == a[i]);
        }
        lemma_split_cons(head, c, rest);
        lemma_split_cons(head, c, rest + seq![c] + b);
        lemma_split_join(rest, c, b);
        assert(seq![head] + (split(rest, c) + split(b, c)) == seq![head] + split(rest, c) + split(
            b,
            c,
        ));
    }
}

proof fn lemma_pieces_join(p: Seq<Seq<char>>, q: Seq<Seq<char>>)
    ensures
        pieces_evidence(p + q) == pieces_evidence(p) + pieces_evidence(q),
    decreases q.len(),
{
    if q.len() == 0 {
        assert(p + q == p);
        assert(pieces_evidence(p) + pieces_evidence(q) == pieces_evidence(p));
    } else {
        assert((p + q).drop_last() == p + q.drop_last());
        assert((p + q).last() == q.last());
        lemma_pieces_join(p, q.drop_last());
    }
}

/// The platforms of a template count one by one: what stands on either side
/// of a semicolon is evidence on its own.
pub proof fn law_templates_are_read_piece_by_piece(a: Seq<char>, b: Seq<char>)
    ensures
        template_evidence(a + seq![';'] + b) == template_evidence(a) + template_evidence(b),
{
    lemma_split_join(a, ';', b);
    lemma_pieces_join(split(a, ';'), split(b, ';'));
}

/// One platform of a template, with white space around it and in either case,
/// is evidence by its name, and any other text is none.
pub proof fn law_platforms_are_evidence(before: Seq<char>, name: Seq<char>, after: Seq<char>)
    requires
        forall|i: int| 0 <= i < before.len() ==> is_white(before[i]),
        forall|i: int| 0 <= i < after.len() ==> is_white(after[i]),
        name.len() > 0 ==> !is_white(name[0]) && !is_white(name.last()),
        forall|i: int| 0 <= i < name.len() ==> name[i] != ';',
    ensures
        ({
            let n = lower(name);
            let found = template_evidence(before + name + after);
            let x86 = n == "intel"@ || n == "x86"@;
            let x64 = n == "intel64"@ || n == "amd64"@ || n == "x64"@;
            &&& x86 ==> found == seq![ArchEvidence::X86]
            &&& x64 ==> found == seq![ArchEvidence::X64]
            &&& n == "arm64"@ ==> found == seq![ArchEvidence::Arm64]
            &&& n == "arm"@ ==> found == seq![ArchEvidence::Unrecognized]
            &&& !x86 && !x64 && n != "arm64"@ && n != "arm"@ ==> found.len() == 0
        }),
{
    let s = before + name + after;
    assert forall|i: int| 0 <= i < s.len() implies s[i] != ';' by {
        if i < before.len() {
            assert(is_white(before[i]));
        } else if i < before.len() + name.len() {
            assert(s[i] == name[i - before.len()]);
        } else {
            assert(is_white(after[i - before.len() - name.len()]));
        }
    }
    lemma_split_cons(s, ';', Seq::empty());
    law_trimming_takes_off_white_space(before, name, after);
    let pieces = seq![s];
    assert(pieces.drop_last() == Seq::<Seq<char>>::empty());
    assert(pieces_evidence(pieces.drop_last()) == Seq::<ArchEvidence>::empty());
    assert(split(s, ';') == pieces);
    assert(pieces.last() == s);
    let n = lower(name);
    if let Some(ev) = platform_evidence(n) {
        assert(pieces_evidence(pieces) == Seq::<ArchEvidence>::empty().push(ev));
        assert(Seq::<ArchEvidence>::empty().push(ev) == seq![ev]);
    }
    reveal_strlit("intel");
    reveal_strlit("x86");
    reveal_strlit("intel64");
    reveal_strlit("amd64");
    reveal_strlit("x64");
    reveal_strlit("arm64");
    reveal_strlit("arm");
    assert("intel"@.len() == 5 && "x86"@.len() == 3 && "intel64"@.len() == 7 && "amd64"@.len() == 5
        && "x64"@.len() == 3 && "arm64"@.len() == 5 && "arm"@.len() == 3);
    assert("x86"@[1] != "x64"@[1]);
    assert("arm64"@[1] != "amd64"@[1]);
    assert("intel"@[0] != "amd64"@[0]);
    assert("intel"@[0] != "arm64"@[0]);
    assert("x86"@[0] != "arm"@[0]);
    assert("x64"@[0] != "arm"@[0]);
}

/// The token of a template is that of its evidence, or `unknown`.
pub proof fn law_template_tokens(template: Seq<char>)
    ensures
        merged(template_evidence(template)) matches Some(arch) ==> template_token(template) == arch,
        merged(template_evidence(template)) is None ==> template_token(template) == "unknown"@,
{
}

} // verus!
