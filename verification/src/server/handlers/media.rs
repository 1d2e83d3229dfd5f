//! Serving media: from the local cache by store key, and exported files by talker, kind
//! and name.

use vstd::prelude::*;

use crate::pathname::{
    base_name, extension, extension_dot, extension_of, file_name_of, has_extension, name_extension,
    PathStyle,
};
use crate::pathsafe::{is_contained_resolved, is_safe_segment, safe_segment, within};
use crate::server::error::{ApiError, ApiErrorModel};
use crate::server::handlers::accounts::media_kinds;
use crate::server::handlers::{content_type_of, media_content_type};
use crate::store::media::resolve_local_path;
use crate::store::{MediaEntry, Store};
use crate::strmap::{assoc, lemma_mapped};
use crate::text::{lower_seq, opt_str_view, same, views};

verus! {

/// Request parameters.
#[derive(Debug)]
pub struct Params {
    pub access_token: Option<String>,
}

impl Default for Params {
    fn default() -> (r: Self)
        ensures
            r.access_token is None,
    {
        Params { access_token: None }
    }
}

/// The extension that types a served file: that of the name hint where it has one, else
/// that of the file.
pub open spec fn serving_extension(
    style: PathStyle,
    hint: Option<Seq<char>>,
    path: Seq<char>,
) -> Seq<char> {
    match hint {
        Some(h) => if extension_dot(base_name(style, h)) is Some {
            extension_of(base_name(style, h))
        } else {
            extension_of(base_name(style, path))
        },
        None => extension_of(base_name(style, path)),
    }
}

/// The content type of a served file.
pub fn served_type(style: PathStyle, hint: Option<&str>, path: &str) -> (r: &'static str)
    ensures
        r@ == content_type_of(lower_seq(serving_extension(style, opt_str_view(hint), path@))),
{
    if let Some(h) = hint {
        let name = file_name_of(style, h);
        if has_extension(name.as_str()) {
            let ext = name_extension(name.as_str());
            return media_content_type(ext.as_str());
        }
    }
    let ext = extension(style, path);
    media_content_type(ext.as_str())
}

/// The entry registered under a store key: clients can name keys only, never paths.
pub fn registered_entry(store: &Store, id: &str) -> (r: Result<MediaEntry, ApiError>)
    requires
        store.wf(),
    ensures
        match assoc(store@.media, id@) {
            Some(e) => r is Ok && r->Ok_0@ == e,
            None => r is Err && r->Err_0@ == (ApiErrorModel { code: 404, message: "媒体不存在"@ }),
        },
{
    proof {
        lemma_mapped(store.media@, |e: MediaEntry| e@);
    }
    match store.media.get(id) {
        Some(e) => Ok(e.clone()),
        None => Err(ApiError::not_found("媒体不存在")),
    }
}

/// The file that serves a registered entry: its canonical path (`None` where there is no
/// such file), where that lies below the media root.
pub fn cached_file(
    canonical: Option<Vec<String>>,
    media_root: Option<&Vec<String>>,
) -> (r: Result<Vec<String>, ApiError>)
    ensures
        r is Ok == (canonical is Some && media_root is Some && within(
            views(media_root->0@),
            views(canonical->0@),
        )),
        r is Ok ==> Some(r->Ok_0) == canonical,
        r is Err ==> r->Err_0@ == cache_cleared(),
{
    match resolve_local_path(canonical, media_root) {
        Some(path) => Ok(path),
        None => Err(ApiError::not_found("本地缓存已清理，媒体文件不存在")),
    }
}

/// The error of a file that is gone.
pub open spec fn cache_cleared() -> ApiErrorModel {
    ApiErrorModel { code: 404, message: "本地缓存已清理，媒体文件不存在"@ }
}

/// The exported file to serve: its canonical path, where that lies below the canonical
/// export root. Either is `None` where there is no such path.
pub fn exported_file(canonical: Option<Vec<String>>, root: Option<&Vec<String>>) -> (r: Result<
    Vec<String>,
    ApiError,
>)
    ensures
        r is Ok == (canonical is Some && root is Some && within(
            views(root->0@),
            views(canonical->0@),
        )),
        r is Ok ==> Some(r->Ok_0) == canonical,
        r is Err ==> r->Err_0@ == if canonical is None {
            cache_cleared()
        } else if root is None {
            ApiErrorModel { code: 404, message: "媒体导出目录不存在"@ }
        } else {
            ApiErrorModel { code: 404, message: "媒体不存在"@ }
        },
{
    let path = match canonical {
        Some(p) => p,
        None => return Err(ApiError::not_found("本地缓存已清理，媒体文件不存在")),
    };
    if root.is_none() {
        return Err(ApiError::not_found("媒体导出目录不存在"));
    }
    if is_contained_resolved(root, &path) {
        Ok(path)
    } else {
        Err(ApiError::not_found("媒体不存在"))
    }
}

/// An exported file may be asked for under these segments: a known kind, and safe path
/// components.
pub open spec fn servable(talker: Seq<char>, kind: Seq<char>, file: Seq<char>) -> bool {
    media_kinds().contains(kind) && is_safe_segment(talker) && is_safe_segment(file)
}

/// Checks the segments of an exported file's URL.
pub fn exported_segments(talker: &str, kind: &str, file: &str) -> (r: Result<(), ApiError>)
    ensures
        r is Ok == servable(talker@, kind@, file@),
        r is Err ==> r->Err_0@ == (ApiErrorModel { code: 404, message: "媒体不存在"@ }),
{
    let known = same(kind, "images") || same(kind, "voices") || same(kind, "videos") || same(
        kind,
        "emojis",
    );
    proof {
        let ks = media_kinds();
        if known {
            assert(ks[0] == kind@ || ks[1] == kind@ || ks[2] == kind@ || ks[3] == kind@);
            assert(ks.contains(kind@));
        } else if ks.contains(kind@) {
            let i = ks.index_of(kind@);
            assert(ks[i] == kind@);
        }
    }
    if known && safe_segment(talker) && safe_segment(file) {
        Ok(())
    } else {
        Err(ApiError::not_found("媒体不存在"))
    }
}

/// A file is served by the extension of the name that it was sent under, where that has one,
/// else by that of its path.
pub proof fn law_serving_extensions(
    dir: Seq<char>,
    stem: Seq<char>,
    ext: Seq<char>,
    path: Seq<char>,
)
    requires
        stem.len() > 0,
        forall|i: int| 0 <= i < stem.len() ==> #[trigger] stem[i] != '/' && stem[i] != '.',
        forall|i: int| 0 <= i < ext.len() ==> #[trigger] ext[i] != '/' && ext[i] != '.',
    ensures
        serving_extension(PathStyle::Unix, Some(stem.push('.') + ext), path) == ext,
        serving_extension(PathStyle::Unix, None, dir.push('/') + (stem.push('.') + ext)) == ext,
        serving_extension(PathStyle::Unix, Some(stem), dir.push('/') + (stem.push('.') + ext))
            == ext,
{
    let name = stem.push('.') + ext;
    assert(stem[0] != '.');
    assert(name[0] == stem[0]);
    assert(seq!['.'][0] == '.' && seq!['.', '.'][0] == '.');
    assert forall|i: int| 0 <= i < name.len() implies #[trigger] name[i] != '/' by {
        if i > stem.len() {
            assert(name[i] == ext[i - stem.len() - 1]);
        } else if i < stem.len() {
            assert(name[i] == stem[i]);
        }
    }
    crate::pathname::law_unix_base_names(dir, name);
    crate::pathname::law_unix_base_names(dir, stem);
    crate::pathname::law_names_part_at_the_last_dot(stem, ext);
    crate::pathname::law_names_part_at_the_last_dot(stem, stem);
    crate::pathname::lemma_no_last_char(stem, '.', stem.len() as int);
}

/// Exported files are served from the four directories alone, under a talker and a name that
/// each are one safe segment.
pub proof fn law_servable(talker: Seq<char>, kind: Seq<char>, file: Seq<char>)
    ensures
        servable(talker, kind, file) <==> is_safe_segment(talker) && is_safe_segment(file) && (kind
            == "images"@ || kind == "voices"@ || kind == "videos"@ || kind == "emojis"@),
        cache_cleared().code == 404,
{
    let k = media_kinds();
    assert(k[0] == "images"@ && k[1] == "voices"@ && k[2] == "videos"@ && k[3] == "emojis"@);
}

} // verus!
