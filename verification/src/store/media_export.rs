//! On-demand media export: which file of the local cache is copied to
//! `<exportRoot>/<talker>/<images|voices|videos>/<file>`, and what a message then reports
//! of it.
//!
//! File names are derived from the media store key (md5 hex or uuid, plus the source
//! extension): same content, same destination across pages. The original file name is only
//! kept when no key exists. A missing source or a disabled kind silently yields nothing.
//!
//! The copying itself is up to the caller.

use vstd::prelude::*;
use vstd::string::StringExecFns;
use vstd::utf8::encode_utf8;

use crate::parser::types::{is_md5_hex, MediaInfo, MediaModel};
use crate::pathname::{base_name, extension, extension_of, file_name_of, PathStyle};
use crate::pathsafe::{is_safe_segment, safe_segment, unsafe_char, within};
use crate::store::media::resolve_local_path;
use crate::store::query::{out_views, MessageOut, MessageOutModel};
use crate::text::{
    char_is_alnum, is_hex, chars_of, is_alnum, opt_str_view, opt_view, same, views,
};

verus! {

/// Which media kinds to export.
#[derive(Debug, Clone, Copy, PartialEq, Eq, Structural)]
pub struct ExportOptions {
    pub image: bool,
    pub voice: bool,
    pub video: bool,
    /// Recognized but inert: emoji carry display text only, so there is nothing to gate.
    pub emoji: bool,
}

impl Default for ExportOptions {
    fn default() -> (r: Self)
        ensures
            r == (ExportOptions { image: true, voice: true, video: true, emoji: true }),
    {
        ExportOptions { image: true, voice: true, video: true, emoji: true }
    }
}

/// Export root and URL base for one request.
#[derive(Debug)]
pub struct ExportContext {
    pub root: String,
    pub base_url: String,
    pub talker: String,
    /// Whose rules the sources' paths follow.
    pub style: PathStyle,
}

/// One successfully exported media file.
#[derive(Debug)]
pub struct ExportOut {
    pub file_name: String,
    /// `{base_url}/api/v1/media/{talker}/{kind}/{file}`
    pub url: String,
    /// Absolute path under the export root.
    pub local_path: String,
}

/// What an [`ExportOut`] holds.
pub struct ExportOutModel {
    pub file_name: Seq<char>,
    pub url: Seq<char>,
    pub local_path: Seq<char>,
}

impl View for ExportOut {
    type V = ExportOutModel;

    open spec fn view(&self) -> ExportOutModel {
        ExportOutModel {
            file_name: self.file_name@,
            url: self.url@,
            local_path: self.local_path@,
        }
    }
}

/// The view of an optional export.
pub open spec fn opt_export(o: Option<ExportOut>) -> Option<ExportOutModel> {
    match o {
        Some(e) => Some(e@),
        None => None,
    }
}

/// A safe path component that can stand in a URL as it is.
pub open spec fn url_safe(s: Seq<char>) -> bool {
    is_safe_segment(s) && forall|i: int|
        0 <= i < s.len() ==> is_alnum(#[trigger] s[i]) || s[i] == '.' || s[i] == '_' || s[i] == '-'
}

fn is_url_safe(s: &str) -> (r: bool)
    ensures
        r == url_safe(s@),
{
    if !safe_segment(s) {
        return false;
    }
    let v = chars_of(s);
    let mut i: usize = 0;
    while i < v.len()
        invariant
            i <= v.len(),
            v@ == s@,
            is_safe_segment(s@),
            forall|j: int|
                0 <= j < i ==> is_alnum(#[trigger] s@[j]) || s@[j] == '.' || s@[j] == '_' || s@[j]
                    == '-',
        decreases v.len() - i,
    {
        let c = v[i];
        if !(char_is_alnum(c) || c == '.' || c == '_' || c == '-') {
            assert(!(is_alnum(s@[i as int]) || s@[i as int] == '.' || s@[i as int] == '_'
                || s@[i as int] == '-'));
            return false;
        }
        i += 1;
    }
    true
}

/// The extension that an exported file keeps of its source: one of at most eight bytes.
pub open spec fn kept_extension(style: PathStyle, source: Seq<char>) -> Option<Seq<char>> {
    let ext = extension_of(base_name(style, source));
    if ext.len() > 0 && encode_utf8(ext).len() <= 8 {
        Some(ext)
    } else {
        None
    }
}

/// The name of an exported file: `<key>.<source ext>` where there is a usable key, else
/// the medium's own name, else the source's, where it is URL-safe.
pub open spec fn export_name(style: PathStyle, m: MediaModel, source: Seq<char>) -> Seq<char> {
    if m.key is Some && url_safe(m.key->0) {
        match kept_extension(style, source) {
            Some(ext) => m.key->0 + "."@ + ext,
            None => m.key->0,
        }
    } else if m.file_name is Some && url_safe(m.file_name->0) {
        m.file_name->0
    } else if url_safe(base_name(style, source)) {
        base_name(style, source)
    } else {
        "media"@
    }
}

/// Safe export file name of a medium whose bytes come from `source`.
pub fn export_file_name(style: PathStyle, m: &MediaInfo, source: &str) -> (r: String)
    ensures
        r@ == export_name(style, m@, source@),
{
    if let Some(key) = m.key() {
        if is_url_safe(key) {
            let ext = extension(style, source);
            if !ext.as_str().is_empty() && ext.as_str().as_bytes().len() <= 8 {
                let mut r = key.to_owned();
                r.append(".");
                r.append(ext.as_str());
                return r;
            }
            return key.to_owned();
        }
    }
    if let Some(name) = &m.file_name {
        if is_url_safe(name.as_str()) {
            return name.clone();
        }
    }
    let base = file_name_of(style, source);
    if is_url_safe(base.as_str()) {
        base
    } else {
        "media".to_owned()
    }
}

/// What is to be copied, and under which name.
#[derive(Debug)]
pub struct ExportPlan {
    pub source: String,
    pub file_name: String,
}

/// What an [`ExportPlan`] holds.
pub struct ExportPlanModel {
    pub source: Seq<char>,
    pub file_name: Seq<char>,
}

impl View for ExportPlan {
    type V = ExportPlanModel;

    open spec fn view(&self) -> ExportPlanModel {
        ExportPlanModel { source: self.source@, file_name: self.file_name@ }
    }
}

/// The view of an optional plan.
pub open spec fn opt_plan(o: Option<ExportPlan>) -> Option<ExportPlanModel> {
    match o {
        Some(p) => Some(p@),
        None => None,
    }
}

/// What exporting a medium copies: nothing where its kind is disabled, where no source
/// resolved, or where the talker or the name is no safe path component. The row's own
/// source goes before the registered one.
pub open spec fn export_plan(
    style: PathStyle,
    talker: Seq<char>,
    m: MediaModel,
    enabled: bool,
    own: Option<Seq<char>>,
    fallback: Option<Seq<char>>,
) -> Option<ExportPlanModel> {
    let source = if own is Some {
        own
    } else {
        fallback
    };
    if !enabled || source is None {
        None
    } else {
        let name = export_name(style, m, source->0);
        if is_safe_segment(talker) && is_safe_segment(name) {
            Some(ExportPlanModel { source: source->0, file_name: name })
        } else {
            None
        }
    }
}

/// Plan the export of one media file into `<root>/<talker>/<kind>/<file>`: `own` and
/// `fallback` are the resolved paths of the row's own and of the registered source.
pub fn export_media(
    ctx: &ExportContext,
    m: &MediaInfo,
    enabled: bool,
    own: Option<&str>,
    fallback: Option<&str>,
) -> (r: Option<ExportPlan>)
    ensures
        opt_plan(r) == export_plan(
            ctx.style,
            ctx.talker@,
            m@,
            enabled,
            opt_str_view(own),
            opt_str_view(fallback),
        ),
{
    if !enabled {
        return None;
    }
    let source: &str = match own {
        Some(p) => p,
        None => match fallback {
            Some(p) => p,
            None => return None,
        },
    };
    let file_name = export_file_name(ctx.style, m, source);
    if !safe_segment(ctx.talker.as_str()) || !safe_segment(file_name.as_str()) {
        return None;
    }
    Some(ExportPlan { source: source.to_owned(), file_name })
}

/// A file to export: its canonical path as components, and the name to copy it under.
#[derive(Debug)]
pub struct ExportSource {
    pub source: Vec<String>,
    pub file_name: String,
}

/// What an [`ExportSource`] holds.
pub struct ExportSourceModel {
    pub source: Seq<Seq<char>>,
    pub file_name: Seq<char>,
}

impl View for ExportSource {
    type V = ExportSourceModel;

    open spec fn view(&self) -> ExportSourceModel {
        ExportSourceModel { source: views(self.source@), file_name: self.file_name@ }
    }
}

/// The view of an optional source.
pub open spec fn opt_source(o: Option<ExportSource>) -> Option<ExportSourceModel> {
    match o {
        Some(s) => Some(s@),
        None => None,
    }
}

/// The view of an optional path.
pub open spec fn opt_path(o: Option<Vec<String>>) -> Option<Seq<Seq<char>>> {
    match o {
        Some(p) => Some(views(p@)),
        None => None,
    }
}

/// The canonical path, where it lies below the canonical root.
pub open spec fn below_root(path: Option<Seq<Seq<char>>>, root: Option<Seq<Seq<char>>>) -> Option<
    Seq<Seq<char>>,
> {
    if path is Some && root is Some && within(root->0, path->0) {
        path
    } else {
        None
    }
}

/// The last component of a path, or the empty text.
pub open spec fn last_part(path: Seq<Seq<char>>) -> Seq<char> {
    if path.len() == 0 {
        Seq::empty()
    } else {
        path.last()
    }
}

/// What exporting a medium copies, of the canonical paths of the row's own and of the
/// registered source: the first of them that lies below the media root.
pub open spec fn contained_plan(
    style: PathStyle,
    talker: Seq<char>,
    m: MediaModel,
    enabled: bool,
    own: Option<Seq<Seq<char>>>,
    fallback: Option<Seq<Seq<char>>>,
    root: Option<Seq<Seq<char>>>,
) -> Option<ExportSourceModel> {
    let source = if below_root(own, root) is Some {
        own
    } else {
        below_root(fallback, root)
    };
    match source {
        Some(path) => match export_plan(style, talker, m, enabled, Some(last_part(path)), None) {
            Some(p) => Some(ExportSourceModel { source: path, file_name: p.file_name }),
            None => None,
        },
        None => None,
    }
}

/// Plan the export of one media file from the canonical paths of its sources and of the
/// media root, each `None` where there is no such path: a source outside the root is none.
pub fn export_contained(
    ctx: &ExportContext,
    m: &MediaInfo,
    enabled: bool,
    own: Option<Vec<String>>,
    fallback: Option<Vec<String>>,
    media_root: Option<&Vec<String>>,
) -> (r: Option<ExportSource>)
    ensures
        opt_source(r) == contained_plan(
            ctx.style,
            ctx.talker@,
            m@,
            enabled,
            opt_path(own),
            opt_path(fallback),
            match media_root {
                Some(p) => Some(views(p@)),
                None => None,
            },
        ),
{
    let source: Vec<String> = match resolve_local_path(own, media_root) {
        Some(p) => p,
        None => match resolve_local_path(fallback, media_root) {
            Some(p) => p,
            None => return None,
        },
    };
    let plan = {
        let name: &str = if source.len() == 0 {
            proof {
                reveal_strlit("");
                assert(""@ =~= Seq::<char>::empty());
            }
            ""
        } else {
            assert(views(source@).last() == source@.last()@);
            source[source.len() - 1].as_str()
        };
        assert(name@ == last_part(views(source@)));
        export_media(ctx, m, enabled, Some(name), None)
    };
    match plan {
        Some(p) => Some(ExportSource { source, file_name: p.file_name }),
        None => None,
    }
}

/// What is exported lies below the media root, and is one of the medium's two sources:
/// where neither does, or there is no root, nothing is exported.
pub proof fn law_exported_sources_are_contained(
    style: PathStyle,
    talker: Seq<char>,
    m: MediaModel,
    enabled: bool,
    own: Option<Seq<Seq<char>>>,
    fallback: Option<Seq<Seq<char>>>,
    root: Option<Seq<Seq<char>>>,
)
    ensures
        ({
            let r = contained_plan(style, talker, m, enabled, own, fallback, root);
            &&& r is Some ==> root is Some && within(root->0, r->0.source) && (own == Some(
                r->0.source,
            ) || fallback == Some(r->0.source)) && enabled && is_safe_segment(talker)
                && is_safe_segment(r->0.file_name)
            &&& below_root(own, root) is None && below_root(fallback, root) is None ==> r is None
        }),
{
}

/// Nothing is ever written under a talker or a name that is no safe path component.
pub proof fn law_export_stays_inside(
    style: PathStyle,
    talker: Seq<char>,
    m: MediaModel,
    enabled: bool,
    own: Option<Seq<char>>,
    fallback: Option<Seq<char>>,
)
    requires
        export_plan(style, talker, m, enabled, own, fallback) is Some,
    ensures
        enabled,
        is_safe_segment(talker),
        is_safe_segment(export_plan(style, talker, m, enabled, own, fallback)->0.file_name),
{
}

proof fn lemma_md5_is_url_safe(s: Seq<char>)
    requires
        is_md5_hex(s),
    ensures
        url_safe(s),
{
    assert forall|i: int| 0 <= i < s.len() implies is_alnum(#[trigger] s[i]) by {
        assert(is_hex(s[i]));
    }
    assert(vstd::utf8::is_ascii_chars(s));
    vstd::utf8::is_ascii_chars_encode_utf8(s);
    assert(is_hex(s[31]));
    assert forall|i: int| 0 <= i < s.len() implies !unsafe_char(#[trigger] s[i]) by {
        assert(is_hex(s[i]));
    }
}

/// Media with different md5 keys never share a destination, whatever their own file names.
pub proof fn law_export_names_are_keyed(
    style: PathStyle,
    a: MediaModel,
    s: Seq<char>,
    b: MediaModel,
    t: Seq<char>,
)
    requires
        a.key is Some,
        b.key is Some,
        is_md5_hex(a.key->0),
        is_md5_hex(b.key->0),
        export_name(style, a, s) == export_name(style, b, t),
    ensures
        a.key == b.key,
{
    lemma_md5_is_url_safe(a.key->0);
    lemma_md5_is_url_safe(b.key->0);
    assert(export_name(style, a, s).take(32) =~= a.key->0);
    assert(export_name(style, b, t).take(32) =~= b.key->0);
}

/// Whether the file still has to be copied: not where a destination file of the same size
/// exists. Lengths are `None` where there is no such file.
pub fn needs_copy(dest: Option<u64>, source: Option<u64>) -> (r: bool)
    ensures
        r == !(dest is Some && dest == source),
{
    match (dest, source) {
        (Some(d), Some(s)) => d != s,
        _ => true,
    }
}

/// The link of an exported file.
pub open spec fn export_url(
    base: Seq<char>,
    talker: Seq<char>,
    kind: Seq<char>,
    file: Seq<char>,
) -> Seq<char> {
    base + "/api/v1/media/"@ + talker + "/"@ + kind + "/"@ + file
}

/// What a message reports of an exported file.
pub fn out(ctx: &ExportContext, kind: &str, file_name: &str, dest: &str) -> (r: ExportOut)
    ensures
        r@ == (ExportOutModel {
            file_name: file_name@,
            url: export_url(ctx.base_url@, ctx.talker@, kind@, file_name@),
            local_path: dest@,
        }),
{
    let mut url = ctx.base_url.clone();
    url.append("/api/v1/media/");
    url.append(ctx.talker.as_str());
    url.append("/");
    url.append(kind);
    url.append("/");
    url.append(file_name);
    ExportOut { file_name: file_name.to_owned(), url, local_path: dest.to_owned() }
}

/// The export directory of a media type, and whether its kind is switched on.
pub open spec fn export_kind(media_type: Option<Seq<char>>, opts: ExportOptions) -> Option<
    (Seq<char>, bool),
> {
    if media_type == Some("image"@) {
        Some(("images"@, opts.image))
    } else if media_type == Some("voice"@) {
        Some(("voices"@, opts.voice))
    } else if media_type == Some("video"@) {
        Some(("videos"@, opts.video))
    } else {
        None
    }
}

/// The export directory of a media type, and whether its kind is switched on.
pub fn kind_of(media_type: &Option<String>, opts: &ExportOptions) -> (r: Option<(&'static str, bool)>)
    ensures
        match r {
            Some((dir, on)) => export_kind(opt_view(*media_type), *opts) == Some((dir@, on)),
            None => export_kind(opt_view(*media_type), *opts) is None,
        },
{
    match media_type {
        Some(t) => {
            let t = t.as_str();
            if same(t, "image") {
                Some(("images", opts.image))
            } else if same(t, "voice") {
                Some(("voices", opts.voice))
            } else if same(t, "video") {
                Some(("videos", opts.video))
            } else {
                None
            }
        },
        None => None,
    }
}

/// A message takes part in an export: it is of a media kind that is switched on, and has
/// metadata.
pub open spec fn exportable(m: MessageOutModel, opts: ExportOptions) -> bool {
    &&& m.media is Some
    &&& match export_kind(m.media_type, opts) {
        Some((dir, on)) => on,
        None => false,
    }
}

/// A message with what its export reports.
pub open spec fn with_export(
    m: MessageOutModel,
    e: Option<ExportOutModel>,
    opts: ExportOptions,
) -> MessageOutModel {
    if exportable(m, opts) && e is Some {
        MessageOutModel {
            media_file_name: Some(e->0.file_name),
            media_url: Some(e->0.url),
            media_local_path: Some(e->0.local_path),
            ..m
        }
    } else {
        m
    }
}

/// The page with its exports.
pub open spec fn exported_page(
    items: Seq<MessageOutModel>,
    exports: Seq<Option<ExportOut>>,
    opts: ExportOptions,
) -> Seq<MessageOutModel> {
    Seq::new(items.len(), |i: int| with_export(items[i], opt_export(exports[i]), opts))
}

/// How many messages of the first `n` were exported.
pub open spec fn export_count(
    items: Seq<MessageOutModel>,
    exports: Seq<Option<ExportOut>>,
    opts: ExportOptions,
    n: int,
) -> nat
    decreases n,
{
    if n <= 0 {
        0
    } else {
        export_count(items, exports, opts, n - 1) + if exportable(items[n - 1], opts) && exports[n
            - 1] is Some {
            1nat
        } else {
            0
        }
    }
}

/// Fill a page's export fields: `exports[i]` is what the export of message `i` gave, `None`
/// where nothing was exported. Returns the messages and how many were exported.
pub fn export_page(opts: &ExportOptions, items: Vec<MessageOut>, exports: Vec<Option<ExportOut>>) -> (r: (
    Vec<MessageOut>,
    usize,
))
    requires
        items.len() == exports.len(),
    ensures
        out_views(r.0@) == exported_page(out_views(items@), exports@, *opts),
        r.1 == export_count(out_views(items@), exports@, *opts, items@.len() as int),
{
    let ghost before = out_views(items@);
    let mut out: Vec<MessageOut> = Vec::new();
    let mut exported: usize = 0;
    let mut i: usize = 0;
    for m in it: items
        invariant
            it.seq() == items@,
            before == out_views(items@),
            items.len() == exports.len(),
            i == it.index(),
            out.len() == i,
            forall|k: int|
                0 <= k < i ==> (#[trigger] out@[k])@ == with_export(
                    before[k],
                    opt_export(exports@[k]),
                    *opts,
                ),
            exported == export_count(before, exports@, *opts, i as int),
            exported <= i,
    {
        let mut m = m;
        assert(before[i as int] == m@);
        if m.media.is_some() {
            match kind_of(&m.media_type, opts) {
                Some((_dir, true)) => {
                    match &exports[i] {
                        Some(e) => {
                            exported += 1;
                            m.media_file_name = Some(e.file_name.clone());
                            m.media_url = Some(e.url.clone());
                            m.media_local_path = Some(e.local_path.clone());
                        },
                        None => {},
                    }
                },
                _ => {},
            }
        }
        assert(m@ == with_export(before[i as int], opt_export(exports@[i as int]), *opts));
        out.push(m);
        i += 1;
    }
    assert(out_views(out@) =~= exported_page(before, exports@, *opts));
    (out, exported)
}

/// Images are kept under `images`, voices under `voices` and videos under `videos`, each as
/// its own switch says; media of any other type is kept nowhere.
pub proof fn law_export_directories(media_type: Option<Seq<char>>, opts: ExportOptions)
    ensures
        ({
            let kind = export_kind(media_type, opts);
            &&& kind is Some <==> media_type == Some("image"@) || media_type == Some("voice"@)
                || media_type == Some("video"@)
            &&& media_type == Some("image"@) ==> (kind->0).0 == "images"@ && (kind->0).1 == opts.image
            &&& media_type == Some("voice"@) ==> (kind->0).0 == "voices"@ && (kind->0).1 == opts.voice
            &&& media_type == Some("video"@) ==> (kind->0).0 == "videos"@ && (kind->0).1 == opts.video
        }),
{
    reveal_strlit("image");
    reveal_strlit("voice");
    reveal_strlit("video");
    assert("image"@[0] == 'i' && "voice"@[0] == 'v' && "video"@[0] == 'v');
    assert("voice"@[1] == 'o' && "video"@[1] == 'i');
}

/// Each kind of media has a directory of its own.
pub proof fn law_export_directories_differ(
    a: Option<Seq<char>>,
    b: Option<Seq<char>>,
    opts: ExportOptions,
)
    requires
        export_kind(a, opts) is Some,
        export_kind(b, opts) is Some,
    ensures
        (export_kind(a, opts)->0).0 == (export_kind(b, opts)->0).0 ==> a == b,
{
    law_export_directories(a, opts);
    law_export_directories(b, opts);
    reveal_strlit("images");
    reveal_strlit("voices");
    reveal_strlit("videos");
    assert("images"@[0] == 'i' && "voices"@[0] == 'v' && "videos"@[0] == 'v');
    assert("voices"@[1] == 'o' && "videos"@[1] == 'i');
}

/// A row is exportable exactly where it has media and the switch of its own type is on.
pub proof fn law_export_switches(m: MessageOutModel, opts: ExportOptions)
    ensures
        exportable(m, opts) ==> m.media is Some,
        m.media is Some && m.media_type == Some("image"@) ==> exportable(m, opts) == opts.image,
        m.media is Some && m.media_type == Some("voice"@) ==> exportable(m, opts) == opts.voice,
        m.media is Some && m.media_type == Some("video"@) ==> exportable(m, opts) == opts.video,
        m.media_type is None ==> !exportable(m, opts),
        exportable(m, opts) ==> m.media_type == Some("image"@) || m.media_type == Some("voice"@)
            || m.media_type == Some("video"@),
{
    law_export_directories(m.media_type, opts);
}

/// Turning one switch over changes whether rows of its own type are exported, and leaves
/// the rows of every other type as they were.
pub proof fn law_switches_touch_their_own_type(m: MessageOutModel, a: ExportOptions, b: ExportOptions)
    requires
        m.media is Some,
    ensures
        b == (ExportOptions { image: !a.image, ..a }) ==> (exportable(m, a) != exportable(m, b)
            <==> m.media_type == Some("image"@)),
        b == (ExportOptions { voice: !a.voice, ..a }) ==> (exportable(m, a) != exportable(m, b)
            <==> m.media_type == Some("voice"@)),
        b == (ExportOptions { video: !a.video, ..a }) ==> (exportable(m, a) != exportable(m, b)
            <==> m.media_type == Some("video"@)),
        b == (ExportOptions { emoji: !a.emoji, ..a }) ==> exportable(m, a) == exportable(m, b),
{
    law_export_directories(m.media_type, a);
    law_export_directories(m.media_type, b);
}

/// A row of a message is exported under its message's own switch: an image under that of
/// images, a voice under that of voices, a video under that of videos, and nothing else.
pub proof fn law_messages_are_exported_by_type(
    s: crate::store::StoreModel,
    r: crate::parser::types::RecordModel,
    opts: ExportOptions,
)
    requires
        r.parsed.media is Some,
    ensures
        ({
            let on = exportable(crate::store::query::shown_row(s, r), opts);
            &&& r.parsed.msg_type is Image ==> on == opts.image
            &&& r.parsed.msg_type is Voice ==> on == opts.voice
            &&& r.parsed.msg_type is Video ==> on == opts.video
            &&& !(r.parsed.msg_type is Image || r.parsed.msg_type is Voice
                || r.parsed.msg_type is Video) ==> !on
        }),
{
    crate::store::query::law_rows_tell_their_records(s, r);
    law_export_switches(crate::store::query::shown_row(s, r), opts);
}

/// An export fills the three export fields of a row that is exportable, from the copy that
/// was made, and nothing else of it; every other row stays as it was.
pub proof fn law_exports_fill_three_fields(
    m: MessageOutModel,
    e: Option<ExportOutModel>,
    opts: ExportOptions,
)
    ensures
        ({
            let o = with_export(m, e, opts);
            &&& exportable(m, opts) && e is Some ==> o.media_file_name == Some(e->0.file_name)
                && o.media_url == Some(e->0.url) && o.media_local_path == Some(e->0.local_path)
            &&& !exportable(m, opts) || e is None ==> o == m
            &&& o == (MessageOutModel {
                media_file_name: o.media_file_name,
                media_url: o.media_url,
                media_local_path: o.media_local_path,
                ..m
            })
        }),
{
}

/// A page keeps its rows' number and order when it is exported, and each row is filled from
/// the copy at its own place.
pub proof fn law_exported_pages_keep_places(
    items: Seq<MessageOutModel>,
    exports: Seq<Option<ExportOut>>,
    opts: ExportOptions,
    i: int,
)
    requires
        0 <= i < items.len(),
        items.len() == exports.len(),
    ensures
        exported_page(items, exports, opts).len() == items.len(),
        exported_page(items, exports, opts)[i].local_id == items[i].local_id,
        exportable(items[i], opts) && exports[i] is Some ==> exported_page(
            items,
            exports,
            opts,
        )[i].media_url == Some(exports[i]->0.url@),
        !exportable(items[i], opts) || exports[i] is None ==> exported_page(
            items,
            exports,
            opts,
        )[i] == items[i],
{
}

/// The count of exports is the number of the exportable rows that a copy was made for.
pub proof fn law_exports_are_counted(
    items: Seq<MessageOutModel>,
    exports: Seq<Option<ExportOut>>,
    opts: ExportOptions,
    n: int,
)
    requires
        0 <= n <= items.len(),
        items.len() == exports.len(),
    ensures
        export_count(items, exports, opts, n) == Set::new(
            |i: int| 0 <= i < n && exportable(items[i], opts) && exports[i] is Some,
        ).len(),
        export_count(items, exports, opts, n) <= n,
    decreases n,
{
    let at = |k: int|
        Set::new(|i: int| 0 <= i < k && exportable(items[i], opts) && exports[i] is Some);
    if n == 0 {
        assert(at(0) =~= Set::empty());
    } else {
        law_exports_are_counted(items, exports, opts, n - 1);
        lemma_exported_places(items, exports, opts, n - 1);
        if exportable(items[n - 1], opts) && exports[n - 1] is Some {
            assert(at(n) =~= at(n - 1).insert(n - 1));
        } else {
            assert(at(n) =~= at(n - 1));
        }
    }
    assert(at(n) =~= Set::new(
        |i: int| 0 <= i < n && exportable(items[i], opts) && exports[i] is Some,
    ));
}

proof fn lemma_exported_places(
    items: Seq<MessageOutModel>,
    exports: Seq<Option<ExportOut>>,
    opts: ExportOptions,
    n: int,
)
    requires
        0 <= n,
    ensures
        Set::new(
            |i: int| 0 <= i < n && exportable(items[i], opts) && exports[i] is Some,
        ).finite(),
{
    vstd::set_lib::lemma_int_range(0, n);
    assert(Set::new(
        |i: int| 0 <= i < n && exportable(items[i], opts) && exports[i] is Some,
    ).subset_of(vstd::set_lib::set_int_range(0, n)));
    vstd::set_lib::lemma_len_subset(
        Set::new(|i: int| 0 <= i < n && exportable(items[i], opts) && exports[i] is Some),
        vstd::set_lib::set_int_range(0, n),
    );
}

/// A media url begins with the server's address and the media path, and what follows reads
/// back as the talker, the directory and the file name.
pub proof fn law_export_urls(
    base: Seq<char>,
    talker: Seq<char>,
    kind: Seq<char>,
    file: Seq<char>,
)
    ensures
        ({
            let url = export_url(base, talker, kind, file);
            let path = url.skip(base.len() as int + 14);
            &&& url.take(base.len() as int) == base
            &&& url.subrange(base.len() as int, base.len() as int + 14) == "/api/v1/media/"@
            &&& path.len() == talker.len() + kind.len() + file.len() + 2
            &&& path.take(talker.len() as int) == talker
            &&& path[talker.len() as int] == '/'
            &&& path.subrange(talker.len() as int + 1, talker.len() as int + 1 + kind.len()) == kind
            &&& path[talker.len() as int + 1 + kind.len()] == '/'
            &&& path.skip(talker.len() as int + 2 + kind.len()) == file
        }),
{
    reveal_strlit("/api/v1/media/");
    reveal_strlit("/");
    let url = export_url(base, talker, kind, file);
    let path = url.skip(base.len() as int + 14);
    assert(url.take(base.len() as int) =~= base);
    assert(url.subrange(base.len() as int, base.len() as int + 14) =~= "/api/v1/media/"@);
    assert(path =~= talker + "/"@ + kind + "/"@ + file);
    assert(path.take(talker.len() as int) =~= talker);
    assert(path.subrange(talker.len() as int + 1, talker.len() as int + 1 + kind.len()) =~= kind);
    assert(path.skip(talker.len() as int + 2 + kind.len()) =~= file);
}

/// An exported file is named by its media's key where that is fit for a url, with the
/// source's extension behind a dot where that is not empty and at most eight bytes; else by
/// the media's own file name; else by the source's; else `media`.
pub proof fn law_export_name_choice(style: PathStyle, m: MediaModel, source: Seq<char>)
    ensures
        ({
            let name = export_name(style, m, source);
            let ext = extension_of(base_name(style, source));
            let keyed = m.key is Some && url_safe(m.key->0);
            let named = m.file_name is Some && url_safe(m.file_name->0);
            &&& keyed && 0 < ext.len() && encode_utf8(ext).len() <= 8 ==> name == m.key->0.push('.')
                + ext
            &&& keyed && (ext.len() == 0 || encode_utf8(ext).len() > 8) ==> name == m.key->0
            &&& !keyed && named ==> Some(name) == m.file_name
            &&& !keyed && !named && url_safe(base_name(style, source)) ==> name == base_name(
                style,
                source,
            )
            &&& !keyed && !named && !url_safe(base_name(style, source)) ==> name == seq![
                'm',
                'e',
                'd',
                'i',
                'a',
            ]
        }),
{
    reveal_strlit(".");
    reveal_strlit("media");
    if m.key is Some {
        let ext = extension_of(base_name(style, source));
        assert(m.key->0 + "."@ + ext =~= m.key->0.push('.') + ext);
    }
    assert("media"@ =~= seq!['m', 'e', 'd', 'i', 'a']);
}

/// What is fit for a url holds letters, digits, dots, underscores and hyphens alone.
pub proof fn law_url_safe_names(s: Seq<char>)
    ensures
        url_safe(s) ==> s.len() > 0 && s.last() != '.' && encode_utf8(s).len() <= 128 && forall|
            i: int,
        |
            0 <= i < s.len() ==> ('a' <= #[trigger] s[i] <= 'z' || 'A' <= s[i] <= 'Z' || '0' <= s[i]
                <= '9' || s[i] == '.' || s[i] == '_' || s[i] == '-'),
        is_safe_segment(s) && (forall|i: int|
            0 <= i < s.len() ==> ('a' <= #[trigger] s[i] <= 'z' || 'A' <= s[i] <= 'Z' || '0' <= s[i]
                <= '9' || s[i] == '.' || s[i] == '_' || s[i] == '-')) ==> url_safe(s),
{
}

/// The medium's own file goes before the one that was found for its key, and without either
/// nothing is copied; nor is it where the kind is switched off.
pub proof fn law_export_sources(
    style: PathStyle,
    talker: Seq<char>,
    m: MediaModel,
    own: Seq<char>,
    fallback: Option<Seq<char>>,
)
    ensures
        ({
            let p = export_plan(style, talker, m, true, Some(own), fallback);
            let q = export_plan(style, talker, m, true, None, fallback);
            &&& p is Some ==> p->0.source == own && p->0.file_name == export_name(style, m, own)
            &&& p is Some <==> is_safe_segment(talker) && is_safe_segment(
                export_name(style, m, own),
            )
            &&& q is Some ==> Some(q->0.source) == fallback
            &&& fallback is None ==> q is None
            &&& export_plan(style, talker, m, false, Some(own), fallback) is None
        }),
{
}

/// A source outside the media root is passed over for the one found for the key, and where
/// neither lies below the root nothing is copied.
pub proof fn law_contained_sources(
    style: PathStyle,
    talker: Seq<char>,
    m: MediaModel,
    own: Seq<Seq<char>>,
    fallback: Seq<Seq<char>>,
    root: Seq<Seq<char>>,
    name: Seq<char>,
)
    requires
        is_safe_segment(talker),
        m.key is None,
        m.file_name == Some(name),
        url_safe(name),
    ensures
        ({
            let p = contained_plan(style, talker, m, true, Some(own), Some(fallback), Some(root));
            &&& within(root, own) ==> p == Some(ExportSourceModel { source: own, file_name: name })
            &&& !within(root, own) && within(root, fallback) ==> p == Some(
                ExportSourceModel { source: fallback, file_name: name },
            )
            &&& !within(root, own) && !within(root, fallback) ==> p is None
            &&& contained_plan(style, talker, m, true, Some(own), Some(fallback), None) is None
            &&& contained_plan(style, talker, m, false, Some(own), Some(fallback), Some(root)) is None
        }),
{
}

/// An export is seen as what its fields hold, each under its own name.
pub proof fn law_export_view(v: ExportOut)
    ensures
        v@.file_name == v.file_name@,
        v@.url == v.url@,
        v@.local_path == v.local_path@,
{
}

/// A plan is seen as what its fields hold, each under its own name.
pub proof fn law_export_plan_view(v: ExportPlan)
    ensures
        v@.source == v.source@,
        v@.file_name == v.file_name@,
{
}

} // verus!
