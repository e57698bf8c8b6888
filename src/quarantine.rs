//! The `com.apple.quarantine` attribute: its value, and the decision to
//! stamp it only where none is present.
use crate::error::SpsError;
use crate::placeholder::push_all;
use vstd::prelude::*;
use vstd::string::StringSliceAdditionalSpecFns;

verus! {

/// A lowercase hexadecimal digit.
pub open spec fn hex_digit(d: nat) -> u8 {
    if d < 10 {
        (0x30 + d) as u8
    } else {
        (0x61 + d - 10) as u8
    }
}

/// `n` in lowercase hexadecimal, without leading zeros.
pub open spec fn hex_spec(n: nat) -> Seq<u8>
    decreases n,
{
    if n < 16 {
        seq![hex_digit(n)]
    } else {
        hex_spec(n / 16).push(hex_digit(n % 16))
    }
}

/// `n` in lowercase hexadecimal, without leading zeros.
pub fn hex_lower(n: u64) -> (r: Vec<u8>)
    ensures
        r@ == hex_spec(n as nat),
    decreases n,
{
    let d = n % 16;
    let c: u8 = if d < 10 {
        0x30 + d as u8
    } else {
        0x61 + (d - 10) as u8
    };
    if n < 16 {
        let mut v: Vec<u8> = Vec::new();
        v.push(c);
        v
    } else {
        let mut v = hex_lower(n / 16);
        v.push(c);
        v
    }
}

/// Relies on `SystemTime::now`: whole seconds since the Unix epoch, zero
/// for a clock set before it.
#[verifier::external_body]
fn unix_secs_now() -> (r: u64) {
    std::time::SystemTime::now().duration_since(std::time::UNIX_EPOCH).unwrap_or_default().as_secs()
}

/// The current time as lowercase hexadecimal seconds since the Unix epoch.
pub fn get_timestamp_hex() -> (r: Vec<u8>)
    ensures
        exists|secs: u64| r@ == hex_spec(secs as nat),
{
    let secs = unix_secs_now();
    hex_lower(secs)
}

pub open spec fn is_upper_hex(c: u8) -> bool {
    (0x30 <= c <= 0x39) || (0x41 <= c <= 0x46)
}

/// A version-4 UUID in uppercase: thirty-six characters, hex digits in
/// groups of 8, 4, 4, 4 and 12 joined by hyphens, with version digit `4`
/// and a variant digit of `8`, `9`, `A` or `B`.
pub open spec fn uuid_shape(u: Seq<u8>) -> bool {
    &&& u.len() == 36
    &&& u[14] == 0x34
    &&& (u[19] == 0x38 || u[19] == 0x39 || u[19] == 0x41 || u[19] == 0x42)
    &&& forall|i: int|
        0 <= i < 36 ==> if i == 8 || i == 13 || i == 18 || i == 23 {
            #[trigger] u[i] == 0x2d
        } else {
            is_upper_hex(u[i])
        }
}

/// Relies on uuid's `Uuid::new_v4` (random bits with the version and
/// variant fields set) and `Hyphenated::encode_upper`.
#[verifier::external_body]
fn get_uuid_hex() -> (r: Vec<u8>)
    ensures
        uuid_shape(r@),
{
    let mut buf = [0u8; 36];
    uuid::Uuid::new_v4().hyphenated().encode_upper(&mut buf).as_bytes().to_vec()
}

/// `0181;<timestamp>;<agent>;<uuid>`: flags that disable translocation and
/// quarantine mirroring, then the time, the agent and a fresh identifier.
pub open spec fn quarantine_spec(timestamp: Seq<u8>, agent: Seq<u8>, uuid: Seq<u8>) -> Seq<u8> {
    seq![0x30u8, 0x31, 0x38, 0x31, 0x3b] + timestamp + seq![0x3bu8] + agent + seq![0x3bu8] + uuid
}

/// The attribute value for the given parts.
pub fn quarantine_value(timestamp_hex: &[u8], agent: &str, uuid: &[u8]) -> (r: Vec<u8>)
    ensures
        r@ == quarantine_spec(timestamp_hex@, agent.spec_bytes(), uuid@),
{
    let mut out: Vec<u8> = Vec::new();
    let flags: [u8; 5] = [0x30, 0x31, 0x38, 0x31, 0x3b];
    let sep: [u8; 1] = [0x3b];
    push_all(&mut out, &flags);
    push_all(&mut out, timestamp_hex);
    push_all(&mut out, &sep);
    push_all(&mut out, agent.as_bytes());
    push_all(&mut out, &sep);
    push_all(&mut out, uuid);
    assert(out@ =~= quarantine_spec(timestamp_hex@, agent.spec_bytes(), uuid@));
    out
}

/// A fresh attribute value for `agent`, stamped now with a new identifier.
pub fn new_quarantine_value(agent: &str) -> (r: Vec<u8>)
    ensures
        exists|secs: u64, u: Seq<u8>|
            uuid_shape(u) && r@ == quarantine_spec(hex_spec(secs as nat), agent.spec_bytes(), u),
{
    let ts = get_timestamp_hex();
    let u = get_uuid_hex();
    quarantine_value(ts.as_slice(), agent, u.as_slice())
}

/// What reading the attribute gave: its value, no attribute, or a failure.
#[derive(Debug, Clone)]
pub enum AttrLookup {
    Present(Vec<u8>),
    Absent,
    Failed(String),
}

/// Whether the attribute is present; a failed read is an `Io` error.
pub fn has_quarantine_attribute(lookup: &AttrLookup) -> (r: Result<bool, SpsError>)
    ensures
        match lookup {
            AttrLookup::Present(_) => r == Ok::<bool, SpsError>(true),
            AttrLookup::Absent => r == Ok::<bool, SpsError>(false),
            AttrLookup::Failed(_) => r matches Err(SpsError::Io(_)),
        },
{
    match lookup {
        AttrLookup::Present(_) => Ok(true),
        AttrLookup::Absent => Ok(false),
        AttrLookup::Failed(msg) => Err(SpsError::Io(msg.clone())),
    }
}

/// The value to write so that the attribute is present: `None` when one is
/// already there, whatever its value; a fresh value for `agent` otherwise.
pub fn ensure_quarantine_attribute(lookup: &AttrLookup, agent: &str) -> (r: Result<
    Option<Vec<u8>>,
    SpsError,
>)
    ensures
        match lookup {
            AttrLookup::Present(_) => r matches Ok(None),
            AttrLookup::Absent => r matches Ok(Some(v)) && exists|secs: u64, u: Seq<u8>|
                uuid_shape(u) && v@ == quarantine_spec(hex_spec(secs as nat), agent.spec_bytes(), u),
            AttrLookup::Failed(_) => r matches Err(SpsError::Io(_)),
        },
{
    match has_quarantine_attribute(lookup) {
        Ok(true) => Ok(None),
        Ok(false) => Ok(Some(new_quarantine_value(agent))),
        Err(e) => Err(e),
    }
}

/// The attribute after an ensure that would write `fresh`: an existing
/// value stays, a missing one becomes `fresh`.
pub open spec fn after_ensure(current: Option<Seq<u8>>, fresh: Seq<u8>) -> Option<Seq<u8>> {
    match current {
        Some(v) => Some(v),
        None => Some(fresh),
    }
}

/// Ensuring twice leaves the value that the first ensure left, whatever
/// value the second would have written.
pub proof fn lemma_ensure_twice_keeps_first(current: Option<Seq<u8>>, first: Seq<u8>, second: Seq<u8>)
    ensures
        after_ensure(after_ensure(current, first), second) == after_ensure(current, first),
{
}

} // verus!

verus! {

pub open spec fn app_suffix() -> Seq<u8> {
    seq![0x2eu8, 0x61, 0x70, 0x70]
}

/// A file name whose extension is `app`: it ends in `.app` with something
/// before the dot.
pub open spec fn is_app_name(name: Seq<u8>) -> bool {
    name.len() > 4 && name.subrange(name.len() - 4, name.len() as int) == app_suffix()
}

/// Whether a stage entry named `name` is an application bundle to stamp.
pub fn is_app_bundle_name(name: &[u8]) -> (r: bool)
    ensures
        r == is_app_name(name@),
{
    let n = name.len();
    if n <= 4 {
        return false;
    }
    let r = name[n - 4] == 0x2e && name[n - 3] == 0x61 && name[n - 2] == 0x70 && name[n - 1] == 0x70;
    assert(r == (name@.subrange(n - 4, n as int) =~= app_suffix()));
    r
}

} // verus!
