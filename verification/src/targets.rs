//! Plain data model of a compilation target: the attribute domains that
//! platform predicates are matched against.

use vstd::prelude::*;

verus! {

/// An architecture name, such as `x86_64`.
#[derive(Debug, Clone, PartialEq, Eq)]
pub struct Arch(pub String);

/// An environment (ABI) name, such as `musl`. The empty name means
/// "no environment".
#[derive(Debug, Clone, PartialEq, Eq)]
pub struct Env(pub String);

/// An operating-system name, such as `linux`.
#[derive(Debug, Clone, PartialEq, Eq)]
pub struct Os(pub String);

/// A vendor name, such as `apple`.
#[derive(Debug, Clone, PartialEq, Eq)]
pub struct Vendor(pub String);

/// The family of an operating system.
#[allow(non_camel_case_types)]
#[derive(Debug, Clone, Copy, PartialEq, Eq, Structural)]
pub enum Family {
    unix,
    windows,
}

/// Byte order of an architecture.
#[allow(non_camel_case_types)]
#[derive(Debug, Clone, Copy, PartialEq, Eq, Structural)]
pub enum Endian {
    little,
    big,
}

impl View for Arch {
    type V = Seq<char>;

    open spec fn view(&self) -> Seq<char> {
        self.0@
    }
}

impl View for Env {
    type V = Seq<char>;

    open spec fn view(&self) -> Seq<char> {
        self.0@
    }
}

impl View for Os {
    type V = Seq<char>;

    open spec fn view(&self) -> Seq<char> {
        self.0@
    }
}

impl View for Vendor {
    type V = Seq<char>;

    open spec fn view(&self) -> Seq<char> {
        self.0@
    }
}

/// A concrete target description: the record a platform predicate is
/// matched against. Optional fields are absent when the target does not
/// define them.
#[derive(Debug, Clone, PartialEq, Eq)]
pub struct TargetInfo {
    pub arch: Arch,
    pub endian: Endian,
    pub env: Option<Env>,
    pub family: Option<Family>,
    pub os: Option<Os>,
    pub pointer_width: u8,
    pub vendor: Option<Vendor>,
}

} // verus!
