//! Rust toolchains named in a Travis configuration, and the Docker images
//! that provide them.

use vstd::prelude::*;
use vstd::string::*;

verus! {

/// A Travis `rust:` entry.
#[derive(Debug, PartialEq, Eq)]
pub enum Rust {
    Stable,
    Beta,
    Nightly,
    /// An explicit release number, such as `1.42.0`.
    Release(String),
}

/// Abstract value of a [`Rust`].
pub enum Channel {
    Stable,
    Beta,
    Nightly,
    Release(Seq<char>),
}

impl View for Rust {
    type V = Channel;

    open spec fn view(&self) -> Channel {
        match self {
            Rust::Stable => Channel::Stable,
            Rust::Beta => Channel::Beta,
            Rust::Nightly => Channel::Nightly,
            Rust::Release(v) => Channel::Release(v@),
        }
    }
}

/// The toolchain that a version identifier names: one of the three channel
/// names, or else an explicit release.
pub open spec fn channel_of(v: Seq<char>) -> Channel {
    if v == "stable"@ {
        Channel::Stable
    } else if v == "beta"@ {
        Channel::Beta
    } else if v == "nightly"@ {
        Channel::Nightly
    } else {
        Channel::Release(v)
    }
}

/// The image that provides a toolchain; none is published for beta.
pub open spec fn channel_image(c: Channel) -> Option<Seq<char>> {
    match c {
        Channel::Stable => Some("rust:latest"@),
        Channel::Nightly => Some("rustlang/rust:nightly"@),
        Channel::Release(v) => Some("rust:"@ + v),
        Channel::Beta => None,
    }
}

/// The image for a version identifier, if there is one.
pub open spec fn image_for_version(v: Seq<char>) -> Option<Seq<char>> {
    channel_image(channel_of(v))
}

impl Rust {
    /// Reads a version identifier.
    pub fn from_version(v: &str) -> (r: Rust)
        ensures
            r@ == channel_of(v@),
    {
        let given = String::from_str(v);
        if given == String::from_str("stable") {
            Rust::Stable
        } else if given == String::from_str("beta") {
            Rust::Beta
        } else if given == String::from_str("nightly") {
            Rust::Nightly
        } else {
            Rust::Release(given)
        }
    }

    /// The Docker image for this toolchain, or `None` where there is none.
    pub fn image(&self) -> (r: Option<String>)
        ensures
            match r {
                Some(s) => channel_image(self@) == Some(s@),
                None => channel_image(self@) is None,
            },
    {
        match self {
            Rust::Stable => Some(String::from_str("rust:latest")),
            Rust::Nightly => Some(String::from_str("rustlang/rust:nightly")),
            Rust::Release(ver) => Some(String::from_str("rust:").concat(ver.as_str())),
            Rust::Beta => None,
        }
    }
}

impl core::str::FromStr for Rust {
    type Err = ();

    fn from_str(s: &str) -> (r: Result<Rust, ()>)
        ensures
            r matches Ok(x) && x@ == channel_of(s@),
    {
        Ok(Rust::from_version(s))
    }
}

} // verus!
