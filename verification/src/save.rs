//! The image-save operation's target rule: which directory receives the
//! image, and the full path of the written file.
//!
//! The caller may name a directory; otherwise the image goes to the
//! `MarkFlowImages` folder under the user's documents directory, and when
//! the host cannot resolve that directory the operation fails with a
//! configuration error.
use vstd::prelude::*;
use crate::error::FsError;
use crate::paths::{joined, join_path};

verus! {

/// The directory that receives the image: the caller's choice when given,
/// else `MarkFlowImages` under the documents directory, else nothing.
pub open spec fn resolved_dir(
    save_path: Option<Seq<char>>,
    documents_dir: Option<Seq<char>>,
) -> Option<Seq<char>> {
    match save_path {
        Some(p) => Some(p),
        None => match documents_dir {
            Some(d) => Some(joined(d, "MarkFlowImages"@)),
            None => None,
        },
    }
}

/// Resolves the directory that receives the image. `documents_dir` is the
/// host's answer for the user's documents directory, if it has one.
pub fn resolve_save_dir(save_path: Option<String>, documents_dir: Option<String>) -> (r: Result<
    String,
    FsError,
>)
    ensures
        match resolved_dir(save_path.deep_view(), documents_dir.deep_view()) {
            Some(d) => r is Ok && r->Ok_0@ == d,
            None => r is Err && r->Err_0 is Config && r->Err_0.text() == "无法获取文档目录"@,
        },
{
    match save_path {
        Some(p) => Ok(p),
        None => match documents_dir {
            Some(d) => Ok(join_path(d.as_str(), "MarkFlowImages")),
            None => Err(FsError::Config(String::from_str("无法获取文档目录"))),
        },
    }
}

/// The full path the image-save operation writes to: the file name joined
/// onto the resolved directory.
pub fn save_image_target(
    file_name: &str,
    save_path: Option<String>,
    documents_dir: Option<String>,
) -> (r: Result<String, FsError>)
    ensures
        match resolved_dir(save_path.deep_view(), documents_dir.deep_view()) {
            Some(d) => r is Ok && r->Ok_0@ == joined(d, file_name@),
            None => r is Err && r->Err_0 is Config && r->Err_0.text() == "无法获取文档目录"@,
        },
{
    match resolve_save_dir(save_path, documents_dir) {
        Ok(dir) => Ok(join_path(dir.as_str(), file_name)),
        Err(e) => Err(e),
    }
}

} // verus!
