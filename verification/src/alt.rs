//! Matching target predicates against the alternate triple representation
//! of the `target_lexicon` crate, whose taxonomy and naming differ from the
//! predicate language's own. A triple is first read into its plain
//! [`AltTarget`] form: each open-ended component is represented by its
//! canonical (display) name, closed queries by plain values. The matching
//! rules, including their documented irregular cases, are then decided over
//! that form and verified exactly.

use vstd::prelude::*;

use crate::expr::{TargetPredV, TargetPredicate};
use crate::targets;
use crate::text::{str_eq, str_has_prefix};

verus! {

#[verifier::external_type_specification]
#[verifier::external_body]
pub struct ExTriple(target_lexicon::Triple);

/// The canonical name of the architecture that `target_lexicon` parses
/// from a string, or none when parsing fails.
pub uninterp spec fn arch_canon(s: Seq<char>) -> Option<Seq<char>>;

/// The canonical name of the environment that `target_lexicon` parses from
/// a string, or none when parsing fails.
pub uninterp spec fn env_canon(s: Seq<char>) -> Option<Seq<char>>;

/// The canonical name of the operating system that `target_lexicon` parses
/// from a string, or none when parsing fails.
pub uninterp spec fn os_canon(s: Seq<char>) -> Option<Seq<char>>;

/// The canonical name of the vendor that `target_lexicon` parses from a
/// string, or none when parsing fails.
pub uninterp spec fn vendor_canon(s: Seq<char>) -> Option<Seq<char>>;

/// Relies on `target_lexicon::Architecture`: `from_str`, composed with the
/// `Display` implementation, which gives each architecture value a
/// distinct canonical name. Both depend on their argument alone.
#[verifier::external_body]
fn parse_arch_canon(s: &str) -> (r: Option<String>)
    ensures
        match r {
            Some(n) => arch_canon(s@) == Some(n@),
            None => arch_canon(s@) is None,
        },
{
    match s.parse::<target_lexicon::Architecture>() {
        Ok(a) => Some(a.to_string()),
        Err(_) => None,
    }
}

/// Relies on `target_lexicon::Environment`: `from_str`, composed with the
/// `Display` implementation, which gives each environment value a distinct
/// canonical name. Both depend on their argument alone.
#[verifier::external_body]
fn parse_env_canon(s: &str) -> (r: Option<String>)
    ensures
        match r {
            Some(n) => env_canon(s@) == Some(n@),
            None => env_canon(s@) is None,
        },
{
    match s.parse::<target_lexicon::Environment>() {
        Ok(e) => Some(e.to_string()),
        Err(_) => None,
    }
}

/// Relies on `target_lexicon::OperatingSystem`: `from_str`, composed with
/// the `Display` implementation, which gives each operating-system value a
/// distinct canonical name. Both depend on their argument alone.
#[verifier::external_body]
fn parse_os_canon(s: &str) -> (r: Option<String>)
    ensures
        match r {
            Some(n) => os_canon(s@) == Some(n@),
            None => os_canon(s@) is None,
        },
{
    match s.parse::<target_lexicon::OperatingSystem>() {
        Ok(o) => Some(o.to_string()),
        Err(_) => None,
    }
}

/// Relies on `target_lexicon::Vendor`: `from_str`, composed with the
/// `Display` implementation; parsing rejects any custom vendor name that
/// shadows a recognized component name, so each value parsing can produce
/// has a distinct canonical name. Both depend on their argument alone.
#[verifier::external_body]
fn parse_vendor_canon(s: &str) -> (r: Option<String>)
    ensures
        match r {
            Some(n) => vendor_canon(s@) == Some(n@),
            None => vendor_canon(s@) is None,
        },
{
    match s.parse::<target_lexicon::Vendor>() {
        Ok(v) => Some(v.to_string()),
        Err(_) => None,
    }
}

/// The plain reading of an alternate-representation triple: open-ended
/// components by their canonical name, closed queries by plain values, the
/// absent answers of the queries by `None`.
#[derive(Debug, Clone, PartialEq, Eq)]
pub struct AltTarget {
    /// Whether the architecture is the 32-bit x86 family, whatever its
    /// sub-variant.
    pub arch_is_32bit_x86: bool,
    /// Canonical architecture name.
    pub arch: String,
    /// Byte order of the architecture, when it has one.
    pub endian: Option<targets::Endian>,
    /// Natural pointer width of the architecture in bits, when known.
    pub pointer_width: Option<u8>,
    /// Canonical environment name.
    pub env: String,
    /// Canonical operating-system name.
    pub os: String,
    /// Canonical vendor name.
    pub vendor: String,
}

/// Relies on the public fields of `target_lexicon::Triple`: whether its
/// `architecture` is the 32-bit x86 family, `Architecture::X86_32`.
#[verifier::external_body]
fn triple_arch_is_32bit_x86(t: &target_lexicon::Triple) -> bool {
    matches!(t.architecture, target_lexicon::Architecture::X86_32(_))
}

/// Relies on the `Display` implementation of
/// `target_lexicon::Architecture`.
#[verifier::external_body]
fn triple_arch_name(t: &target_lexicon::Triple) -> String {
    t.architecture.to_string()
}

/// Relies on `target_lexicon::Architecture::endianness`, which depends on
/// the architecture alone.
#[verifier::external_body]
fn triple_endian(t: &target_lexicon::Triple) -> Option<targets::Endian> {
    match t.architecture.endianness() {
        Ok(target_lexicon::Endianness::Little) => Some(targets::Endian::little),
        Ok(target_lexicon::Endianness::Big) => Some(targets::Endian::big),
        Err(_) => None,
    }
}

/// Relies on `target_lexicon::Triple::pointer_width` and
/// `PointerWidth::bits`, which depend on the architecture alone.
#[verifier::external_body]
fn triple_pointer_width(t: &target_lexicon::Triple) -> Option<u8> {
    match t.pointer_width() {
        Ok(pw) => Some(pw.bits()),
        Err(_) => None,
    }
}

/// Relies on the `Display` implementation of
/// `target_lexicon::Environment`.
#[verifier::external_body]
fn triple_env_name(t: &target_lexicon::Triple) -> String {
    t.environment.to_string()
}

/// Relies on the `Display` implementation of
/// `target_lexicon::OperatingSystem`.
#[verifier::external_body]
fn triple_os_name(t: &target_lexicon::Triple) -> String {
    t.operating_system.to_string()
}

/// Relies on the `Display` implementation of `target_lexicon::Vendor`.
#[verifier::external_body]
fn triple_vendor_name(t: &target_lexicon::Triple) -> String {
    t.vendor.to_string()
}

impl AltTarget {
    /// Reads an alternate-representation triple into its plain form.
    pub fn from_triple(target: &target_lexicon::Triple) -> AltTarget {
        AltTarget {
            arch_is_32bit_x86: triple_arch_is_32bit_x86(target),
            arch: triple_arch_name(target),
            endian: triple_endian(target),
            pointer_width: triple_pointer_width(target),
            env: triple_env_name(target),
            os: triple_os_name(target),
            vendor: triple_vendor_name(target),
        }
    }
}

/// The environment names that a `gnu` predicate covers: every
/// gnu-flavoured environment, whatever its suffix, is collapsed under the
/// one umbrella name, so the umbrella is the `gnu` prefix itself.
pub open spec fn spec_gnu_umbrella(env_name: Seq<char>) -> bool {
    env_name.len() >= "gnu"@.len() && env_name.subrange(0, "gnu"@.len() as int) == "gnu"@
}

/// The family bucket of an alternate-representation operating system,
/// derived from its canonical name by a fixed classification table; names
/// outside the table fall in neither bucket.
pub open spec fn spec_alt_family(os_name: Seq<char>) -> Option<targets::Family> {
    if os_name == "windows"@ {
        Some(targets::Family::windows)
    } else if os_name == "darwin"@ || os_name == "dragonfly"@ || os_name == "emscripten"@
        || os_name == "freebsd"@ || os_name == "fuchsia"@ || os_name == "haiku"@ || os_name
        == "ios"@ || os_name == "l4re"@ || os_name == "linux"@ || os_name == "netbsd"@ || os_name
        == "openbsd"@ || os_name == "redox"@ || os_name == "solaris"@ || os_name == "vxworks"@ || (
    os_name.len() >= "macosx"@.len() && os_name.subrange(0, "macosx"@.len() as int)
        == "macosx"@) {
        Some(targets::Family::unix)
    } else {
        None
    }
}

/// What it means for a target predicate to hold of an
/// alternate-representation target, with the documented irregular cases:
/// `x86` stands for the whole 32-bit x86 family; an empty environment
/// means the explicit unknown environment; `gnu` covers its umbrella; the
/// family is derived by bucketing the operating system; `macos` also
/// stands for the Darwin name and `android` for Linux with the Android
/// environment; the gnux32 environment forces a 32-bit pointer width;
/// names that do not parse never match.
pub open spec fn spec_matches_alt(p: TargetPredV, t: &AltTarget) -> bool {
    match p {
        TargetPredV::Arch(a) => if a == "x86"@ {
            t.arch_is_32bit_x86
        } else {
            arch_canon(a) == Some(t.arch@)
        },
        TargetPredV::Endian(e) => t.endian == Some(e),
        TargetPredV::Env(env) => if env.len() == 0 {
            t.env@ == "unknown"@
        } else {
            match env_canon(env) {
                Some(c) => if env == "gnu"@ {
                    spec_gnu_umbrella(t.env@)
                } else {
                    t.env@ == c
                },
                None => false,
            }
        },
        TargetPredV::Family(f) => spec_alt_family(t.os@) == Some(f),
        TargetPredV::Os(o) => match os_canon(o) {
            Some(c) => t.os@ == c,
            None => (o == "macos"@ && t.os@ == "darwin"@) || (o == "android"@ && t.os@ == "linux"@
                && t.env@ == "android"@),
        },
        TargetPredV::Vendor(v) => match vendor_canon(v) {
            Some(c) => t.vendor@ == c,
            None => false,
        },
        TargetPredV::PointerWidth(w) => if t.env@ == "gnux32"@ {
            w == 32
        } else {
            t.pointer_width == Some(w)
        },
    }
}

/// The family bucket of an alternate-representation operating-system name.
pub fn alt_family_of(os_name: &str) -> (r: Option<targets::Family>)
    ensures
        r == spec_alt_family(os_name@),
{
    if str_eq(os_name, "windows") {
        Some(targets::Family::windows)
    } else if str_eq(os_name, "darwin") || str_eq(os_name, "dragonfly") || str_eq(
        os_name,
        "emscripten",
    ) || str_eq(os_name, "freebsd") || str_eq(os_name, "fuchsia") || str_eq(os_name, "haiku")
        || str_eq(os_name, "ios") || str_eq(os_name, "l4re") || str_eq(os_name, "linux") || str_eq(
        os_name,
        "netbsd",
    ) || str_eq(os_name, "openbsd") || str_eq(os_name, "redox") || str_eq(os_name, "solaris")
        || str_eq(os_name, "vxworks") || str_has_prefix(os_name, "macosx") {
        Some(targets::Family::unix)
    } else {
        None
    }
}

impl TargetPredicate {
    /// Whether this predicate holds of the given alternate-representation
    /// target reading.
    pub fn matches_alternate(&self, t: &AltTarget) -> (r: bool)
        ensures
            r == spec_matches_alt(self@, t),
    {
        match self {
            TargetPredicate::Arch(a) => {
                if str_eq(a.0.as_str(), "x86") {
                    t.arch_is_32bit_x86
                } else {
                    match parse_arch_canon(a.0.as_str()) {
                        Some(n) => str_eq(n.as_str(), t.arch.as_str()),
                        None => false,
                    }
                }
            },
            TargetPredicate::Endian(e) => match &t.endian {
                Some(te) => *e == *te,
                None => false,
            },
            TargetPredicate::Env(env) => {
                if env.0.as_str().unicode_len() == 0 {
                    str_eq(t.env.as_str(), "unknown")
                } else {
                    match parse_env_canon(env.0.as_str()) {
                        Some(c) => {
                            if str_eq(env.0.as_str(), "gnu") {
                                str_has_prefix(t.env.as_str(), "gnu")
                            } else {
                                str_eq(t.env.as_str(), c.as_str())
                            }
                        },
                        None => false,
                    }
                }
            },
            TargetPredicate::Family(f) => match alt_family_of(t.os.as_str()) {
                Some(tf) => *f == tf,
                None => false,
            },
            TargetPredicate::Os(o) => match parse_os_canon(o.0.as_str()) {
                Some(c) => str_eq(t.os.as_str(), c.as_str()),
                None => (str_eq(o.0.as_str(), "macos") && str_eq(t.os.as_str(), "darwin")) || (
                str_eq(o.0.as_str(), "android") && str_eq(t.os.as_str(), "linux") && str_eq(
                    t.env.as_str(),
                    "android",
                )),
            },
            TargetPredicate::Vendor(v) => match parse_vendor_canon(v.0.as_str()) {
                Some(c) => str_eq(t.vendor.as_str(), c.as_str()),
                None => false,
            },
            TargetPredicate::PointerWidth(w) => {
                if str_eq(t.env.as_str(), "gnux32") {
                    *w == 32
                } else {
                    match &t.pointer_width {
                        Some(pw) => *w == *pw,
                        None => false,
                    }
                }
            },
        }
    }

    /// Whether this predicate holds of a triple of the alternate
    /// representation. The triple's fields are read into their plain form
    /// first; the decision itself is `matches_alternate`, whose contract
    /// is exact, so this holds whatever that reading returned.
    pub fn matches_target(&self, target: &target_lexicon::Triple) -> bool {
        let alt = AltTarget::from_triple(target);
        self.matches_alternate(&alt)
    }
}

} // verus!
