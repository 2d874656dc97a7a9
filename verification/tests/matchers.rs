//! Matching platform predicates against concrete target descriptions and
//! against the alternate triple representation.

use cfg_expr::alt::AltTarget;
use cfg_expr::targets::{Arch, Endian, Env, Family, Os, TargetInfo, Vendor};
use cfg_expr::{Expression, Predicate, TargetPredicate};

fn windows_msvc() -> TargetInfo {
    TargetInfo {
        arch: Arch("x86_64".to_string()),
        endian: Endian::little,
        env: Some(Env("msvc".to_string())),
        family: Some(Family::windows),
        os: Some(Os("windows".to_string())),
        pointer_width: 64,
        vendor: Some(Vendor("pc".to_string())),
    }
}

fn linux_musl() -> TargetInfo {
    TargetInfo {
        arch: Arch("x86_64".to_string()),
        endian: Endian::little,
        env: Some(Env("musl".to_string())),
        family: Some(Family::unix),
        os: Some(Os("linux".to_string())),
        pointer_width: 64,
        vendor: Some(Vendor("unknown".to_string())),
    }
}

fn triple(s: &str) -> target_lexicon::Triple {
    s.parse().unwrap()
}

#[test]
fn matches_every_field_of_a_target() {
    let win = windows_msvc();
    assert!(TargetPredicate::Arch(Arch("x86_64".to_string())).matches(&win));
    assert!(TargetPredicate::Endian(Endian::little).matches(&win));
    assert!(TargetPredicate::Env(Env("msvc".to_string())).matches(&win));
    assert!(TargetPredicate::Family(Family::windows).matches(&win));
    assert!(TargetPredicate::Os(Os("windows".to_string())).matches(&win));
    assert!(TargetPredicate::PointerWidth(64).matches(&win));
    assert!(TargetPredicate::Vendor(Vendor("pc".to_string())).matches(&win));
    assert!(!TargetPredicate::Arch(Arch("x86".to_string())).matches(&win));
    assert!(!TargetPredicate::Endian(Endian::big).matches(&win));
    assert!(!TargetPredicate::Family(Family::unix).matches(&win));
    assert!(!TargetPredicate::PointerWidth(32).matches(&win));
}

#[test]
fn env_predicate_literal_cases() {
    let musl = linux_musl();
    assert!(TargetPredicate::Env(Env("musl".to_string())).matches(&musl));
    assert!(!TargetPredicate::Env(Env("gnu".to_string())).matches(&musl));
    // an empty environment predicate matches a target with no environment
    let mut bare = linux_musl();
    bare.env = None;
    assert!(TargetPredicate::Env(Env(String::new())).matches(&bare));
    assert!(!TargetPredicate::Env(Env("musl".to_string())).matches(&bare));
}

#[test]
fn absent_fields_never_match() {
    let mut t = linux_musl();
    t.os = None;
    t.vendor = None;
    t.family = None;
    assert!(!TargetPredicate::Os(Os("linux".to_string())).matches(&t));
    assert!(!TargetPredicate::Vendor(Vendor("unknown".to_string())).matches(&t));
    assert!(!TargetPredicate::Family(Family::unix).matches(&t));
}

#[test]
fn eval_against_a_target() {
    let expr = Expression::parse(
        "all(not(windows), target_env = \"musl\", any(target_arch = \"x86\", target_arch = \"x86_64\"))",
    )
    .unwrap();
    let musl = linux_musl();
    let win = windows_msvc();
    let against = |t: &TargetInfo| {
        expr.eval(|p: &Predicate| match p {
            Predicate::Target(tp) => tp.matches(t),
            _ => false,
        })
    };
    assert!(against(&musl));
    assert!(!against(&win));
}

#[test]
fn alternate_x86_family_umbrella() {
    // "x86" stands for the whole 32-bit x86 family, whatever the variant
    let x86 = TargetPredicate::Arch(Arch("x86".to_string()));
    assert!(x86.matches_target(&triple("i686-pc-windows-msvc")));
    assert!(x86.matches_target(&triple("i586-unknown-linux-gnu")));
    assert!(!x86.matches_target(&triple("x86_64-unknown-linux-gnu")));
    // other names are parsed and compared exactly
    let x64 = TargetPredicate::Arch(Arch("x86_64".to_string()));
    assert!(x64.matches_target(&triple("x86_64-unknown-linux-gnu")));
    assert!(!x64.matches_target(&triple("i686-pc-windows-msvc")));
    // an unrecognized architecture name fails instead of erroring
    assert!(!TargetPredicate::Arch(Arch("bogusarch".to_string()))
        .matches_target(&triple("x86_64-unknown-linux-gnu")));
}

#[test]
fn alternate_gnu_environment_umbrella() {
    let gnu = TargetPredicate::Env(Env("gnu".to_string()));
    assert!(gnu.matches_target(&triple("x86_64-unknown-linux-gnu")));
    assert!(gnu.matches_target(&triple("x86_64-unknown-linux-gnux32")));
    assert!(gnu.matches_target(&triple("arm-unknown-linux-gnueabi")));
    // every gnu-flavoured environment falls under the umbrella
    assert!(gnu.matches_target(&triple("arm-unknown-linux-gnueabihf")));
    assert!(!gnu.matches_target(&triple("x86_64-unknown-linux-musl")));
    // an exact name still matches its own environment
    let hf = TargetPredicate::Env(Env("gnueabihf".to_string()));
    assert!(hf.matches_target(&triple("arm-unknown-linux-gnueabihf")));
    // the empty name matches only the explicit unknown environment
    let bare = TargetPredicate::Env(Env(String::new()));
    assert!(bare.matches_target(&triple("x86_64-unknown-netbsd")));
    assert!(!bare.matches_target(&triple("x86_64-unknown-linux-gnu")));
}

#[test]
fn alternate_macos_and_android_fallbacks() {
    let macos = TargetPredicate::Os(Os("macos".to_string()));
    assert!(macos.matches_target(&triple("x86_64-apple-darwin")));
    assert!(!macos.matches_target(&triple("x86_64-unknown-linux-gnu")));
    let android = TargetPredicate::Os(Os("android".to_string()));
    assert!(android.matches_target(&triple("aarch64-linux-android")));
    assert!(!android.matches_target(&triple("aarch64-unknown-linux-gnu")));
    let linux = TargetPredicate::Os(Os("linux".to_string()));
    assert!(linux.matches_target(&triple("aarch64-unknown-linux-gnu")));
}

#[test]
fn alternate_pointer_width_gnux32_override() {
    let w32 = TargetPredicate::PointerWidth(32);
    let w64 = TargetPredicate::PointerWidth(64);
    // gnux32: a 64-bit architecture with a forced 32-bit pointer width
    assert!(w32.matches_target(&triple("x86_64-unknown-linux-gnux32")));
    assert!(!w64.matches_target(&triple("x86_64-unknown-linux-gnux32")));
    assert!(w64.matches_target(&triple("x86_64-unknown-linux-gnu")));
    assert!(w32.matches_target(&triple("i686-unknown-linux-gnu")));
}

#[test]
fn alternate_family_vendor_endian() {
    let unix = TargetPredicate::Family(Family::unix);
    let windows = TargetPredicate::Family(Family::windows);
    assert!(unix.matches_target(&triple("x86_64-unknown-linux-gnu")));
    assert!(unix.matches_target(&triple("x86_64-apple-darwin")));
    assert!(windows.matches_target(&triple("i686-pc-windows-gnu")));
    assert!(!unix.matches_target(&triple("i686-pc-windows-gnu")));
    assert!(!windows.matches_target(&triple("wasm32-unknown-unknown")));
    assert!(!unix.matches_target(&triple("wasm32-unknown-unknown")));

    let pc = TargetPredicate::Vendor(Vendor("pc".to_string()));
    assert!(pc.matches_target(&triple("i686-pc-windows-gnu")));
    assert!(!pc.matches_target(&triple("x86_64-apple-darwin")));
    assert!(!TargetPredicate::Vendor(Vendor("No Such Vendor".to_string()))
        .matches_target(&triple("x86_64-apple-darwin")));

    assert!(TargetPredicate::Endian(Endian::little).matches_target(&triple(
        "x86_64-unknown-linux-gnu"
    )));
    assert!(TargetPredicate::Endian(Endian::big).matches_target(&triple(
        "powerpc64-unknown-linux-gnu"
    )));
    assert!(!TargetPredicate::Endian(Endian::big).matches_target(&triple(
        "x86_64-unknown-linux-gnu"
    )));
}

#[test]
fn alternate_reading_carries_plain_values() {
    let alt = AltTarget::from_triple(&triple("x86_64-unknown-linux-gnux32"));
    assert_eq!(alt.arch, "x86_64");
    assert!(!alt.arch_is_32bit_x86);
    assert_eq!(alt.endian, Some(Endian::little));
    assert_eq!(alt.pointer_width, Some(64));
    assert_eq!(alt.env, "gnux32");
    assert_eq!(alt.os, "linux");
    assert_eq!(alt.vendor, "unknown");
}

#[test]
fn alternate_matching_over_a_constructed_reading() {
    let alt = AltTarget {
        arch_is_32bit_x86: false,
        arch: "powerpc".to_string(),
        endian: Some(Endian::big),
        pointer_width: Some(32),
        env: "gnuspe".to_string(),
        os: "linux".to_string(),
        vendor: "unknown".to_string(),
    };
    assert!(TargetPredicate::Env(Env("gnu".to_string())).matches_alternate(&alt));
    assert!(TargetPredicate::Arch(Arch("powerpc".to_string())).matches_alternate(&alt));
    assert!(TargetPredicate::Family(Family::unix).matches_alternate(&alt));
    assert!(TargetPredicate::PointerWidth(32).matches_alternate(&alt));
    assert!(!TargetPredicate::Family(Family::windows).matches_alternate(&alt));
    // a family bucket is only derived for names the table knows
    let mut hermit = alt.clone();
    hermit.os = "hermit".to_string();
    assert!(!TargetPredicate::Family(Family::unix).matches_alternate(&hermit));
    assert!(!TargetPredicate::Family(Family::windows).matches_alternate(&hermit));
}

#[test]
fn eval_against_an_alternate_triple() {
    let expr = Expression::parse(
        "all(not(windows), target_env = \"musl\", any(target_arch = \"x86\", target_arch = \"x86_64\"))",
    )
    .unwrap();
    let against = |t: &target_lexicon::Triple| {
        expr.eval(|p: &Predicate| match p {
            Predicate::Target(tp) => tp.matches_target(t),
            _ => false,
        })
    };
    assert!(against(&triple("x86_64-unknown-linux-musl")));
    assert!(!against(&triple("x86_64-unknown-linux-gnu")));
    assert!(!against(&triple("x86_64-pc-windows-msvc")));
}
