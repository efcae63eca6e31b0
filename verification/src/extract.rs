//! Extraction dispatch. For each input file name the sniffer's verdict is
//! turned into one action: decompress to the bare name, decompress to a
//! transient `.tar` intermediate and then unpack it, unpack directly, copy
//! the file verbatim, or skip it, under the configured policy for
//! unrecognised names. The filesystem work itself is outside work driven by
//! a surrounding program; decompression of in-memory bytes lives in
//! [`crate::codec`].

use vstd::prelude::*;

verus! {

use crate::chars::str_eq;
use crate::codec::Codec;
use crate::sniff::{
    lemma_name_ext_tag, name_ext, name_ext_spec, tag_bz2, tag_gz, tag_tar, tag_tar_bz2, tag_tar_gz,
    tag_tar_xz, tag_xz,
};
use vstd::string::StringExecFns;

/// What to do with an input whose name matches no recognised suffix.
#[derive(Debug, PartialEq, Eq, Structural, Clone, Copy)]
pub enum OnUnsupported {
    Skip,
    Copy,
}

/// Configuration of one extraction run: the policy for unrecognised names.
#[derive(Debug, PartialEq, Eq, Structural, Clone, Copy)]
pub struct Extractor {
    pub on_unsupported: OnUnsupported,
}

/// The name of the transient intermediate: the bare name with a literal
/// `.tar` appended.
pub open spec fn tar_name_spec(n: Seq<char>) -> Seq<char> {
    n + seq!['.', 't', 'a', 'r']
}

/// How one input file is handled.
#[derive(Debug, PartialEq, Eq, Clone)]
pub enum ExtractAction {
    /// Decompress the file's bytes into `out_name` in the destination
    /// directory.
    Decompress { codec: Codec, out_name: String },
    /// Decompress into the transient intermediate `tar_name`, unpack that
    /// intermediate into the destination directory, then delete it.
    DecompressUnpack { codec: Codec, tar_name: String },
    /// Unpack the file directly into the destination directory.
    Unpack,
    /// Copy the file verbatim into the destination directory.
    CopyAsIs,
    /// Leave the file alone.
    Skip,
}

/// Whether an action handles a recognised archive or compressed file; only
/// such inputs contribute their source path to the extraction result list.
pub fn is_archive_action(a: &ExtractAction) -> (r: bool)
    ensures
        r == (a matches ExtractAction::Decompress { .. } || a
            matches ExtractAction::DecompressUnpack { .. } || a matches ExtractAction::Unpack),
{
    match a {
        ExtractAction::Decompress { .. } => true,
        ExtractAction::DecompressUnpack { .. } => true,
        ExtractAction::Unpack => true,
        ExtractAction::CopyAsIs => false,
        ExtractAction::Skip => false,
    }
}

impl Extractor {
    /// An extractor that skips inputs with unrecognised names.
    pub fn new() -> (r: Self)
        ensures
            r.on_unsupported == OnUnsupported::Skip,
    {
        Extractor { on_unsupported: OnUnsupported::Skip }
    }

    /// Sets the policy for inputs with unrecognised names.
    pub fn on_unsupported(self, action: OnUnsupported) -> (r: Self)
        ensures
            r.on_unsupported == action,
    {
        Extractor { on_unsupported: action }
    }

    /// Decides how one input file is handled, from its file name alone:
    /// a single compression suffix decompresses to the bare name, a
    /// compound tar suffix decompresses to a `.tar` intermediate and
    /// unpacks it, a plain `tar` suffix unpacks directly, and an
    /// unrecognised name falls to the configured policy. The sniffer's
    /// grammar is closed: no other action can come back.
    pub fn plan_one(&self, file_name: &str) -> (a: ExtractAction)
        ensures
            ({
                let m = name_ext_spec(file_name@);
                &&& (m is None && self.on_unsupported == OnUnsupported::Skip ==> a
                    == ExtractAction::Skip)
                &&& (m is None && self.on_unsupported == OnUnsupported::Copy ==> a
                    == ExtractAction::CopyAsIs)
                &&& (m is Some ==> {
                    let n = m->Some_0.0;
                    let e = m->Some_0.1;
                    &&& (e == tag_xz() ==> (a matches ExtractAction::Decompress { codec, out_name }
                        && codec == Codec::Xz && out_name@ == n))
                    &&& (e == tag_gz() ==> (a matches ExtractAction::Decompress { codec, out_name }
                        && codec == Codec::Gz && out_name@ == n))
                    &&& (e == tag_bz2() ==> (a matches ExtractAction::Decompress {
                        codec,
                        out_name,
                    } && codec == Codec::Bz2 && out_name@ == n))
                    &&& (e == tag_tar() ==> a == ExtractAction::Unpack)
                    &&& (e == tag_tar_xz() ==> (a matches ExtractAction::DecompressUnpack {
                        codec,
                        tar_name,
                    } && codec == Codec::Xz && tar_name@ == tar_name_spec(n)))
                    &&& (e == tag_tar_gz() ==> (a matches ExtractAction::DecompressUnpack {
                        codec,
                        tar_name,
                    } && codec == Codec::Gz && tar_name@ == tar_name_spec(n)))
                    &&& (e == tag_tar_bz2() ==> (a matches ExtractAction::DecompressUnpack {
                        codec,
                        tar_name,
                    } && codec == Codec::Bz2 && tar_name@ == tar_name_spec(n)))
                })
            }),
    {
        proof {
            reveal_strlit("xz");
            reveal_strlit("gz");
            reveal_strlit("bz2");
            reveal_strlit("tar");
            reveal_strlit("tar.xz");
            reveal_strlit("tar.gz");
            reveal_strlit("tar.bz2");
            assert("xz"@ =~= tag_xz());
            assert("gz"@ =~= tag_gz());
            assert("bz2"@ =~= tag_bz2());
            assert("tar"@ =~= tag_tar());
            assert("tar.xz"@ =~= tag_tar_xz());
            assert("tar.gz"@ =~= tag_tar_gz());
            assert("tar.bz2"@ =~= tag_tar_bz2());
        }
        match name_ext(file_name) {
            Option::None => {
                match self.on_unsupported {
                    OnUnsupported::Skip => ExtractAction::Skip,
                    OnUnsupported::Copy => ExtractAction::CopyAsIs,
                }
            },
            Option::Some(pair) => {
                let (bare, ext) = pair;
                proof {
                    lemma_name_ext_tag(file_name@, bare@, ext@);
                }
                if str_eq(ext.as_str(), "tar") {
                    ExtractAction::Unpack
                } else if str_eq(ext.as_str(), "tar.xz") {
                    ExtractAction::DecompressUnpack { codec: Codec::Xz, tar_name: with_tar(bare) }
                } else if str_eq(ext.as_str(), "tar.gz") {
                    ExtractAction::DecompressUnpack { codec: Codec::Gz, tar_name: with_tar(bare) }
                } else if str_eq(ext.as_str(), "tar.bz2") {
                    ExtractAction::DecompressUnpack { codec: Codec::Bz2, tar_name: with_tar(bare) }
                } else if str_eq(ext.as_str(), "xz") {
                    ExtractAction::Decompress { codec: Codec::Xz, out_name: bare }
                } else if str_eq(ext.as_str(), "gz") {
                    ExtractAction::Decompress { codec: Codec::Gz, out_name: bare }
                } else {
                    assert(ext@ == tag_bz2());
                    ExtractAction::Decompress { codec: Codec::Bz2, out_name: bare }
                }
            },
        }
    }
}

/// Appends the literal `.tar` to a bare name.
fn with_tar(bare: String) -> (r: String)
    ensures
        r@ == tar_name_spec(bare@),
{
    let mut s = bare;
    s.append(".tar");
    proof {
        reveal_strlit(".tar");
        assert(".tar"@ =~= seq!['.', 't', 'a', 'r']);
    }
    s
}

} // verus!
