//! Formula-side decisions: the platform tag of the host, and the arguments
//! of a CMake configure step.
use crate::archive::{bytes_equal, lemma_split_nonempty, split_on, split_pieces};
use crate::cask::{ascii, ascii_bytes};
use vstd::prelude::*;
use vstd::string::*;

verus! {

/// The host operating system.
#[derive(Debug, Clone, Copy, PartialEq, Eq)]
pub enum HostOs {
    MacOs,
    Linux,
    Other,
}

pub open spec fn is_space(c: u8) -> bool {
    c == 0x20 || (0x09 <= c <= 0x0d)
}

/// `b` without leading and trailing ASCII whitespace.
pub open spec fn trim_spec(b: Seq<u8>) -> Seq<u8>
    decreases b.len(),
{
    if b.len() == 0 {
        b
    } else if is_space(b[0]) {
        trim_spec(b.drop_first())
    } else if is_space(b.last()) {
        trim_spec(b.drop_last())
    } else {
        b
    }
}

/// The release name of a macOS product version, from its major number (and
/// its minor number for the 10.x line).
pub open spec fn macos_name(version: Seq<u8>) -> Option<Seq<char>> {
    let segs = split_on(version, 0x2e);
    let major = segs[0];
    if major == ascii("15"@) {
        Some("sequoia"@)
    } else if major == ascii("14"@) {
        Some("sonoma"@)
    } else if major == ascii("13"@) {
        Some("ventura"@)
    } else if major == ascii("12"@) {
        Some("monterey"@)
    } else if major == ascii("11"@) {
        Some("big_sur"@)
    } else if major == ascii("10"@) && segs.len() > 1 {
        if segs[1] == ascii("15"@) {
            Some("catalina"@)
        } else if segs[1] == ascii("14"@) {
            Some("mojave"@)
        } else {
            None
        }
    } else {
        None
    }
}

/// The platform tag: `<os>` or `arm64_<os>` on macOS, from the output of
/// `sw_vers -productVersion` when that command succeeded, else the
/// `monterey` fallback; `arm64_linux` or `x86_64_linux` on Linux; `unknown`
/// elsewhere.
pub open spec fn platform_spec(os: HostOs, arch: Seq<u8>, product_version: Option<Seq<u8>>) -> Seq<
    char,
> {
    let arm = arch == ascii("aarch64"@);
    match os {
        HostOs::MacOs => {
            let name = match product_version {
                Some(out) => {
                    let v = trim_spec(out);
                    if v.len() == 0 {
                        None
                    } else {
                        macos_name(v)
                    }
                },
                None => None,
            };
            match name {
                Some(n) => if arm {
                    "arm64_"@ + n
                } else {
                    n
                },
                None => if arm {
                    "arm64_monterey"@
                } else {
                    "monterey"@
                },
            }
        },
        HostOs::Linux => if arm {
            "arm64_linux"@
        } else if arch == ascii("x86_64"@) {
            "x86_64_linux"@
        } else {
            "unknown"@
        },
        HostOs::Other => "unknown"@,
    }
}

fn trim_bytes(b: &[u8]) -> (r: Vec<u8>)
    ensures
        r@ == trim_spec(b@),
{
    let mut lo: usize = 0;
    let mut hi: usize = b.len();
    assert(b@.subrange(0, b@.len() as int) =~= b@);
    while lo < hi && (b[lo] == 0x20 || (0x09 <= b[lo] && b[lo] <= 0x0d))
        invariant
            lo <= hi == b@.len(),
            trim_spec(b@) == trim_spec(b@.subrange(lo as int, hi as int)),
        decreases hi - lo,
    {
        assert(b@.subrange(lo as int, hi as int).drop_first() =~= b@.subrange(lo + 1, hi as int));
        lo = lo + 1;
    }
    while lo < hi && (b[hi - 1] == 0x20 || (0x09 <= b[hi - 1] && b[hi - 1] <= 0x0d))
        invariant
            lo <= hi <= b@.len(),
            lo == hi || !is_space(b@[lo as int]),
            trim_spec(b@) == trim_spec(b@.subrange(lo as int, hi as int)),
        decreases hi - lo,
    {
        let ghost s = b@.subrange(lo as int, hi as int);
        assert(s.drop_last() =~= b@.subrange(lo as int, hi - 1));
        assert(s[0] == b@[lo as int]);
        hi = hi - 1;
    }
    let mut out: Vec<u8> = Vec::new();
    let mut i = lo;
    while i < hi
        invariant
            lo <= i <= hi <= b@.len(),
            out@ == b@.subrange(lo as int, i as int),
        decreases hi - i,
    {
        out.push(b[i]);
        i = i + 1;
        assert(out@ =~= b@.subrange(lo as int, i as int));
    }
    let ghost s = b@.subrange(lo as int, hi as int);
    assert(s.len() == 0 || (!is_space(s[0]) && !is_space(s.last())));
    out
}

fn macos_release(version: &[u8]) -> (r: Option<String>)
    ensures
        match r {
            Some(s) => macos_name(version@) == Some(s@),
            None => macos_name(version@) is None,
        },
{
    let segs = split_pieces(version, 0x2e);
    proof {
        lemma_split_nonempty(version@, 0x2e);
        reveal_strlit("15");
        reveal_strlit("14");
        reveal_strlit("13");
        reveal_strlit("12");
        reveal_strlit("11");
        reveal_strlit("10");
    }
    assert(segs@[0]@ == split_on(version@, 0x2e)[0]);
    let major = segs[0].as_slice();
    let v15 = ascii_bytes("15");
    let v14 = ascii_bytes("14");
    if bytes_equal(major, v15.as_slice()) {
        Some(String::from_str("sequoia"))
    } else if bytes_equal(major, v14.as_slice()) {
        Some(String::from_str("sonoma"))
    } else if bytes_equal(major, ascii_bytes("13").as_slice()) {
        Some(String::from_str("ventura"))
    } else if bytes_equal(major, ascii_bytes("12").as_slice()) {
        Some(String::from_str("monterey"))
    } else if bytes_equal(major, ascii_bytes("11").as_slice()) {
        Some(String::from_str("big_sur"))
    } else if bytes_equal(major, ascii_bytes("10").as_slice()) && segs.len() > 1 {
        assert(segs@[1]@ == split_on(version@, 0x2e)[1]);
        let minor = segs[1].as_slice();
        if bytes_equal(minor, v15.as_slice()) {
            Some(String::from_str("catalina"))
        } else if bytes_equal(minor, v14.as_slice()) {
            Some(String::from_str("mojave"))
        } else {
            None
        }
    } else {
        None
    }
}

/// The platform tag that bottle selection and receipts use. `arch` is the
/// compiler's architecture name; `product_version` is the output of
/// `sw_vers -productVersion` where that command ran and succeeded.
pub fn platform_tag(os: HostOs, arch: &str, product_version: Option<&[u8]>) -> (r: String)
    ensures
        r@ == platform_spec(
            os,
            arch.spec_bytes(),
            match product_version {
                Some(b) => Some(b@),
                None => None,
            },
        ),
{
    proof {
        reveal_strlit("aarch64");
        reveal_strlit("x86_64");
    }
    let a = arch.as_bytes();
    let arm = bytes_equal(a, ascii_bytes("aarch64").as_slice());
    match os {
        HostOs::MacOs => {
            let name = match product_version {
                Some(out) => {
                    let v = trim_bytes(out);
                    if v.len() == 0 {
                        None
                    } else {
                        macos_release(v.as_slice())
                    }
                },
                None => None,
            };
            match name {
                Some(n) => if arm {
                    String::from_str("arm64_").concat(n.as_str())
                } else {
                    n
                },
                None => if arm {
                    String::from_str("arm64_monterey")
                } else {
                    String::from_str("monterey")
                },
            }
        },
        HostOs::Linux => if arm {
            String::from_str("arm64_linux")
        } else if bytes_equal(a, ascii_bytes("x86_64").as_slice()) {
            String::from_str("x86_64_linux")
        } else {
            String::from_str("unknown")
        },
        HostOs::Other => String::from_str("unknown"),
    }
}

} // verus!

verus! {

/// The arguments of the CMake configure step: the source directory, the
/// install prefix, then fixed options for a release build with Ninja.
pub open spec fn cmake_args_spec(source_dir: Seq<char>, install_dir: Seq<char>) -> Seq<Seq<char>> {
    seq![
        source_dir,
        "-DCMAKE_INSTALL_PREFIX="@ + install_dir,
        "-DCMAKE_POLICY_VERSION_MINIMUM=3.5"@,
        "-DCMAKE_BUILD_TYPE=Release"@,
        "-G"@,
        "Ninja"@,
        "-DCMAKE_FIND_FRAMEWORK=LAST"@,
        "-DCMAKE_VERBOSE_MAKEFILE=ON"@,
        "-Wno-dev"@,
    ]
}

/// The arguments of `cmake` for configuring `source_dir` to install into
/// `install_dir`.
pub fn cmake_configure_args(source_dir: &str, install_dir: &str) -> (r: Vec<String>)
    ensures
        r@.map_values(|s: String| s@) == cmake_args_spec(source_dir@, install_dir@),
{
    let mut v: Vec<String> = Vec::new();
    v.push(String::from_str(source_dir));
    v.push(String::from_str("-DCMAKE_INSTALL_PREFIX=").concat(install_dir));
    v.push(String::from_str("-DCMAKE_POLICY_VERSION_MINIMUM=3.5"));
    v.push(String::from_str("-DCMAKE_BUILD_TYPE=Release"));
    v.push(String::from_str("-G"));
    v.push(String::from_str("Ninja"));
    v.push(String::from_str("-DCMAKE_FIND_FRAMEWORK=LAST"));
    v.push(String::from_str("-DCMAKE_VERBOSE_MAKEFILE=ON"));
    v.push(String::from_str("-Wno-dev"));
    assert(v@.map_values(|s: String| s@) =~= cmake_args_spec(source_dir@, install_dir@));
    v
}

} // verus!

verus! {

/// The cellar directory of a formula: `<cellar>/<name>`.
pub fn get_formula_cellar_path(formula_name: &str, config: &crate::cask::Config) -> (r: Vec<u8>)
    ensures
        r@ == crate::archive::join_spec(config.cellar@, seq![formula_name.spec_bytes()]),
{
    config.formula_cellar_dir(formula_name)
}

} // verus!
