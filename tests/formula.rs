use sps_core::formula::{platform_tag, HostOs};

#[test]
fn macos_versions_map_to_release_names() {
    assert_eq!(platform_tag(HostOs::MacOs, "aarch64", Some(b"14.2.1\n")), "arm64_sonoma");
    assert_eq!(platform_tag(HostOs::MacOs, "x86_64", Some(b"12.7")), "monterey");
    assert_eq!(platform_tag(HostOs::MacOs, "aarch64", Some(b" 15.0 ")), "arm64_sequoia");
    assert_eq!(platform_tag(HostOs::MacOs, "x86_64", Some(b"13.1")), "ventura");
    assert_eq!(platform_tag(HostOs::MacOs, "x86_64", Some(b"11.6")), "big_sur");
    assert_eq!(platform_tag(HostOs::MacOs, "x86_64", Some(b"10.15.7")), "catalina");
    assert_eq!(platform_tag(HostOs::MacOs, "x86_64", Some(b"10.14")), "mojave");
}

#[test]
fn unknown_or_missing_versions_fall_back_to_monterey() {
    assert_eq!(platform_tag(HostOs::MacOs, "aarch64", None), "arm64_monterey");
    assert_eq!(platform_tag(HostOs::MacOs, "x86_64", None), "monterey");
    assert_eq!(platform_tag(HostOs::MacOs, "x86_64", Some(b"")), "monterey");
    assert_eq!(platform_tag(HostOs::MacOs, "x86_64", Some(b"10.13")), "monterey");
    assert_eq!(platform_tag(HostOs::MacOs, "x86_64", Some(b"10")), "monterey");
    assert_eq!(platform_tag(HostOs::MacOs, "aarch64", Some(b"99.0")), "arm64_monterey");
}

#[test]
fn other_systems() {
    assert_eq!(platform_tag(HostOs::Linux, "aarch64", None), "arm64_linux");
    assert_eq!(platform_tag(HostOs::Linux, "x86_64", None), "x86_64_linux");
    assert_eq!(platform_tag(HostOs::Linux, "riscv64", None), "unknown");
    assert_eq!(platform_tag(HostOs::Other, "x86_64", None), "unknown");
}

#[test]
fn cmake_configure_arguments() {
    let a = sps_core::formula::cmake_configure_args("/tmp/build/src", "/opt/sps/Cellar/foo/1.0");
    assert_eq!(
        a,
        vec![
            "/tmp/build/src",
            "-DCMAKE_INSTALL_PREFIX=/opt/sps/Cellar/foo/1.0",
            "-DCMAKE_POLICY_VERSION_MINIMUM=3.5",
            "-DCMAKE_BUILD_TYPE=Release",
            "-G",
            "Ninja",
            "-DCMAKE_FIND_FRAMEWORK=LAST",
            "-DCMAKE_VERBOSE_MAKEFILE=ON",
            "-Wno-dev",
        ]
    );
}
