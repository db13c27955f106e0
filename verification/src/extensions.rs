//! The name under which the content of a datastream version is staged.
use crate::text::{chars_of, ends_with, has_suffix};
use vstd::prelude::*;
use vstd::string::StringExecFns;

verus! {

/// The file extension that stands for a MIME type; `bin` for one that the
/// table does not hold.
pub open spec fn mime_extension(mime_type: Seq<char>) -> Seq<char> {
    if mime_type == "application/pdf"@ {
        "pdf"@
    } else if mime_type == "application/rdf+xml"@ {
        "rdf"@
    } else if mime_type == "application/xml"@ {
        "xml"@
    } else if mime_type == "text/xml"@ {
        "xml"@
    } else if mime_type == "text/plain"@ {
        "txt"@
    } else if mime_type == "text/html"@ {
        "html"@
    } else if mime_type == "audio/aac"@ {
        "aac"@
    } else if mime_type == "audio/mpeg"@ {
        "mp3"@
    } else if mime_type == "audio/wav"@ {
        "wav"@
    } else if mime_type == "image/gif"@ {
        "gif"@
    } else if mime_type == "image/jp2"@ {
        "jp2"@
    } else if mime_type == "image/jpeg"@ {
        "jpg"@
    } else if mime_type == "image/jpg"@ {
        "jpg"@
    } else if mime_type == "image/png"@ {
        "png"@
    } else if mime_type == "image/tiff"@ {
        "tif"@
    } else if mime_type == "video/mp4"@ {
        "mp4"@
    } else {
        "bin"@
    }
}

/// `label` already ends in the extension of `mime_type`, behind a dot.
pub open spec fn names_a_file(label: Seq<char>, mime_type: Seq<char>) -> bool {
    ends_with(label, seq!['.'] + mime_extension(mime_type))
}

/// The name that is made up for a version whose label names no file.
pub open spec fn synthesized_name(
    pid: Seq<char>,
    dsid: Seq<char>,
    version: Seq<char>,
    mime_type: Seq<char>,
) -> Seq<char> {
    pid + seq!['_'] + dsid + seq!['_'] + version + seq!['.'] + mime_extension(mime_type)
}

/// The file name of a version: its label where that ends in the extension
/// of its MIME type, else a name made of PID, datastream and version.
pub open spec fn file_name_of(
    pid: Seq<char>,
    dsid: Seq<char>,
    version: Seq<char>,
    label: Seq<char>,
    mime_type: Seq<char>,
) -> Seq<char> {
    if names_a_file(label, mime_type) {
        label
    } else {
        synthesized_name(pid, dsid, version, mime_type)
    }
}

/// The file extension that stands for a MIME type.
pub fn extension_for(mime_type: &str) -> (r: &'static str)
    ensures
        r@ == mime_extension(mime_type@),
{
    if mime_type.eq("application/pdf") {
        "pdf"
    } else if mime_type.eq("application/rdf+xml") {
        "rdf"
    } else if mime_type.eq("application/xml") {
        "xml"
    } else if mime_type.eq("text/xml") {
        "xml"
    } else if mime_type.eq("text/plain") {
        "txt"
    } else if mime_type.eq("text/html") {
        "html"
    } else if mime_type.eq("audio/aac") {
        "aac"
    } else if mime_type.eq("audio/mpeg") {
        "mp3"
    } else if mime_type.eq("audio/wav") {
        "wav"
    } else if mime_type.eq("image/gif") {
        "gif"
    } else if mime_type.eq("image/jp2") {
        "jp2"
    } else if mime_type.eq("image/jpeg") {
        "jpg"
    } else if mime_type.eq("image/jpg") {
        "jpg"
    } else if mime_type.eq("image/png") {
        "png"
    } else if mime_type.eq("image/tiff") {
        "tif"
    } else if mime_type.eq("video/mp4") {
        "mp4"
    } else {
        "bin"
    }
}

/// The file name under which a version's content is staged.
pub fn version_file_name(pid: &str, dsid: &str, version: &str, label: &str, mime_type: &str) -> (r:
    String)
    ensures
        r@ == file_name_of(pid@, dsid@, version@, label@, mime_type@),
{
    let extension = extension_for(mime_type);
    let mut suffix = String::from_str(".");
    proof {
        reveal_strlit(".");
        reveal_strlit("_");
        assert("."@ =~= seq!['.']);
        assert("_"@ =~= seq!['_']);
    }
    suffix.append(extension);
    if has_suffix(&chars_of(label), &chars_of(suffix.as_str())) {
        String::from_str(label)
    } else {
        let mut name = String::from_str(pid);
        name.append("_");
        name.append(dsid);
        name.append("_");
        name.append(version);
        name.append(suffix.as_str());
        assert(name@ =~= synthesized_name(pid@, dsid@, version@, mime_type@));
        name
    }
}

} // verus!
