//! The checksum computed over the downloaded bytes.

use crate::digest::Digester;
use crate::text;
use core::str::FromStr;
use vstd::prelude::*;

verus! {

/// Which checksum to compute over the resource as it streams.
#[derive(Clone, Copy, Debug, PartialEq, Eq, Structural)]
pub enum Checksum {
    /// Skip hashing.
    Skip,
    /// MD5.
    Md5,
    /// SHA-1.
    Sha1,
    /// SHA-256, the default.
    Sha256,
    /// SHA-512.
    Sha512,
    /// BLAKE3, fast and parallelizable.
    Blake3,
}

impl Default for Checksum {
    /// SHA-256.
    fn default() -> (c: Self)
        ensures
            c == Checksum::Sha256,
    {
        Checksum::Sha256
    }
}

/// The lowercase name of an algorithm, or `none`.
pub open spec fn name_of(checksum: Checksum) -> Seq<char> {
    match checksum {
        Checksum::Skip => "none"@,
        Checksum::Md5 => "md5"@,
        Checksum::Sha1 => "sha1"@,
        Checksum::Sha256 => "sha256"@,
        Checksum::Sha512 => "sha512"@,
        Checksum::Blake3 => "blake3"@,
    }
}

/// The algorithm whose name `value` is, in any letter case.
pub open spec fn named(value: Seq<char>) -> Option<Checksum> {
    let name = text::model::lower(value);
    if name == "none"@ {
        Some(Checksum::Skip)
    } else if name == "md5"@ {
        Some(Checksum::Md5)
    } else if name == "sha1"@ {
        Some(Checksum::Sha1)
    } else if name == "sha256"@ {
        Some(Checksum::Sha256)
    } else if name == "sha512"@ {
        Some(Checksum::Sha512)
    } else if name == "blake3"@ {
        Some(Checksum::Blake3)
    } else {
        None
    }
}

/// The error from parsing an unknown checksum name.
#[derive(Clone, Copy, Debug, PartialEq, Eq, Structural)]
pub struct UnknownChecksum;

impl UnknownChecksum {
    /// What to tell the user.
    pub fn message(&self) -> (s: &'static str)
        ensures
            s@ == "unknown checksum (use none, md5, sha1, sha256, sha512, or blake3)"@,
    {
        "unknown checksum (use none, md5, sha1, sha256, sha512, or blake3)"
    }
}

impl Checksum {
    /// The lowercase algorithm name, or `none`.
    pub fn name(self) -> (s: &'static str)
        ensures
            s@ == name_of(self),
    {
        match self {
            Checksum::Skip => "none",
            Checksum::Md5 => "md5",
            Checksum::Sha1 => "sha1",
            Checksum::Sha256 => "sha256",
            Checksum::Sha512 => "sha512",
            Checksum::Blake3 => "blake3",
        }
    }

    /// The algorithm named `value`, in any letter case.
    pub fn from_str(value: &str) -> (r: Result<Checksum, UnknownChecksum>)
        ensures
            match r {
                Ok(checksum) => named(value@) == Some(checksum),
                Err(_) => named(value@) is None,
            },
    {
        let chars = text::chars_of(value);
        let lowered = text::lower(&chars);
        let name = text::string_of(&lowered);
        let name = name.as_str();
        if text::same_str(name, "none") {
            Ok(Checksum::Skip)
        } else if text::same_str(name, "md5") {
            Ok(Checksum::Md5)
        } else if text::same_str(name, "sha1") {
            Ok(Checksum::Sha1)
        } else if text::same_str(name, "sha256") {
            Ok(Checksum::Sha256)
        } else if text::same_str(name, "sha512") {
            Ok(Checksum::Sha512)
        } else if text::same_str(name, "blake3") {
            Ok(Checksum::Blake3)
        } else {
            Err(UnknownChecksum)
        }
    }

    /// A fresh hasher, or nothing for [`Checksum::Skip`].
    pub fn hasher(self) -> (h: Option<Digester>)
        ensures
            match h {
                Some(hasher) => hasher.wf() && hasher.algorithm() == self && hasher@ == Seq::<
                    u8,
                >::empty() && self != Checksum::Skip,
                None => self == Checksum::Skip,
            },
    {
        match self {
            Checksum::Skip => None,
            Checksum::Md5 => Some(Digester::md5()),
            Checksum::Sha1 => Some(Digester::sha1()),
            Checksum::Sha256 => Some(Digester::sha256()),
            Checksum::Sha512 => Some(Digester::sha512()),
            Checksum::Blake3 => Some(Digester::blake3()),
        }
    }
}

impl FromStr for Checksum {
    type Err = UnknownChecksum;

    /// The algorithm named `value`, in any letter case.
    fn from_str(value: &str) -> (r: Result<Self, Self::Err>)
        ensures
            match r {
                Ok(checksum) => named(value@) == Some(checksum),
                Err(_) => named(value@) is None,
            },
    {
        Checksum::from_str(value)
    }
}

/// The name of an algorithm, in any letter case, is read back as that algorithm.
pub proof fn law_name_is_read_back(checksum: Checksum, written: Seq<char>)
    requires
        text::model::lower(written) == name_of(checksum),
    ensures
        named(written) == Some(checksum),
{
    lemma_names_distinct();
    assert(name_of(Checksum::Skip) == "none"@);
    assert(name_of(Checksum::Md5) == "md5"@);
    assert(name_of(Checksum::Sha1) == "sha1"@);
    assert(name_of(Checksum::Sha256) == "sha256"@);
    assert(name_of(Checksum::Sha512) == "sha512"@);
    assert(name_of(Checksum::Blake3) == "blake3"@);
}

/// An algorithm's own name is in lower case.
pub proof fn lemma_name_lower(checksum: Checksum)
    ensures
        text::model::lower(name_of(checksum)) == name_of(checksum),
{
    reveal_strlit("none");
    reveal_strlit("md5");
    reveal_strlit("sha1");
    reveal_strlit("sha256");
    reveal_strlit("sha512");
    reveal_strlit("blake3");
    assert(text::model::lower(name_of(checksum)) =~= name_of(checksum));
}

proof fn lemma_names_distinct()
    ensures
        forall|a: Checksum, b: Checksum|
            (#[trigger] name_of(a)) == (#[trigger] name_of(b)) ==> a == b,
{
    reveal_strlit("none");
    reveal_strlit("md5");
    reveal_strlit("sha1");
    reveal_strlit("sha256");
    reveal_strlit("sha512");
    reveal_strlit("blake3");
    assert forall|a: Checksum, b: Checksum| (#[trigger] name_of(a)) == (#[trigger] name_of(b)) implies a
        == b by {
        let x = name_of(a);
        let y = name_of(b);
        assert(x.len() == y.len());
        assert(x[0] == y[0]);
        if x.len() == 4 {
            assert(x[1] == y[1]);
        }
        if x.len() == 6 {
            assert(x[3] == y[3]);
        }
    }
}

/// Each algorithm goes by one name, in any letter case, and no other text names it.
pub proof fn law_names(written: Seq<char>)
    ensures
        named(written) == Some(Checksum::Skip) <==> text::model::lower(written) == "none"@,
        named(written) == Some(Checksum::Md5) <==> text::model::lower(written) == "md5"@,
        named(written) == Some(Checksum::Sha1) <==> text::model::lower(written) == "sha1"@,
        named(written) == Some(Checksum::Sha256) <==> text::model::lower(written) == "sha256"@,
        named(written) == Some(Checksum::Sha512) <==> text::model::lower(written) == "sha512"@,
        named(written) == Some(Checksum::Blake3) <==> text::model::lower(written) == "blake3"@,
        forall|checksum: Checksum|
            text::model::lower(written) == #[trigger] name_of(checksum) <==> named(written) == Some(checksum),
{
    lemma_names_distinct();
    assert(name_of(Checksum::Skip) == "none"@);
    assert(name_of(Checksum::Md5) == "md5"@);
    assert(name_of(Checksum::Sha1) == "sha1"@);
    assert(name_of(Checksum::Sha256) == "sha256"@);
    assert(name_of(Checksum::Sha512) == "sha512"@);
    assert(name_of(Checksum::Blake3) == "blake3"@);
}

} // verus!
