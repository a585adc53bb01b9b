//! Templates of packages and dotted versions.
use version_renamer::evidence::msi_arch_token;
use version_renamer::pattern::version_part;
use version_renamer::versioninfo::parse_version_parts;

#[test]
fn maps_msi_template_to_arch() {
    assert_eq!(msi_arch_token("x64;1033"), "x64");
    assert_eq!(msi_arch_token("Intel;1033"), "x86");
    assert_eq!(msi_arch_token("Intel64;1033"), "x64");
    assert_eq!(msi_arch_token("AMD64;1033"), "x64");
    assert_eq!(msi_arch_token("Arm64;1033"), "arm64");
    // The legacy 32-bit Arm platform and unrecognized tokens stay unknown.
    assert_eq!(msi_arch_token("Arm;1033"), "unknown");
    assert_eq!(msi_arch_token(""), "unknown");
    assert_eq!(msi_arch_token("xyz;1033"), "unknown");
}

#[test]
fn merges_msi_multi_platform_templates() {
    assert_eq!(msi_arch_token("Intel;AMD64;1033"), "x86");
    assert_eq!(msi_arch_token("Intel;Arm64;1033"), "x86+arm64");
    assert_eq!(msi_arch_token("AMD64;Arm64;1033"), "x64+arm64");
    assert_eq!(msi_arch_token("Intel;AMD64;Arm64;1033"), "x86+arm64");
}

#[test]
fn parses_version_strings_into_fixed_parts() {
    assert_eq!(parse_version_parts("26.5.0"), [26, 5, 0, 0]);
    assert_eq!(parse_version_parts("7.6.4.0"), [7, 6, 4, 0]);
    assert_eq!(parse_version_parts("1.2.3.4.5"), [1, 2, 3, 4]);
    assert_eq!(parse_version_parts(""), [0, 0, 0, 0]);
    assert_eq!(parse_version_parts("a.b"), [0, 0, 0, 0]);
}

#[test]
fn dotted_versions_read_back() {
    for parts in [[0, 0, 0, 0], [10, 0, 26100, 8875], [u32::MAX, 1, 2, 3]] {
        let text = format!("{}.{}.{}.{}", parts[0], parts[1], parts[2], parts[3]);
        assert_eq!(parse_version_parts(&text), parts);
        for (i, part) in parts.iter().enumerate() {
            assert_eq!(version_part(&text, i + 1), part.to_string());
        }
    }
}

#[test]
fn components_are_trimmed_and_may_carry_a_sign() {
    assert_eq!(parse_version_parts(" 1 .+2. 4294967296 .-1"), [1, 2, 0, 0]);
}
