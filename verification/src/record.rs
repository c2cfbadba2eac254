//! The narration recorder's server-side rules: which requests go where,
//! which clip ids are acceptable, and how kept takes are numbered and named
//! so that no take is ever overwritten by a retake.

use vstd::prelude::*;
use crate::script::{
    owned, push_span, text_eq, strings_view, Scene, SceneModel, scenes_view, chunks_view,
};
use crate::text::{
    CharClass, chars_of, decimal, ends_with, in_class, parse_u32, parse_u32_spec, push_padded,
    span_contains, contains_seq, span_starts_with, starts_with, suffix_run, suffix_run_start,
    zero_pad, all_digits, digits_value, lemma_all_digits_decimal, lemma_zero_pad_digits,
    lemma_suffix_run,
};

verus! {

broadcast use vstd::string::group_string_axioms;

/// Why the recorder refused a request.
#[derive(Debug, PartialEq, Eq)]
pub enum RecordError {
    /// A clip id with characters outside `[A-Za-z0-9_-]`, or an empty one.
    InvalidClipId { raw: String },
    /// No clip of the episode has this id.
    UnknownClip { id: String },
}

pub enum RecordErrorModel {
    InvalidClipId { raw: Seq<char> },
    UnknownClip { id: Seq<char> },
}

impl View for RecordError {
    type V = RecordErrorModel;

    open spec fn view(&self) -> RecordErrorModel {
        match self {
            RecordError::InvalidClipId { raw } => RecordErrorModel::InvalidClipId { raw: raw@ },
            RecordError::UnknownClip { id } => RecordErrorModel::UnknownClip { id: id@ },
        }
    }
}

pub open spec fn record_message(e: RecordErrorModel) -> Seq<char> {
    match e {
        RecordErrorModel::InvalidClipId { raw } => "invalid clip id "@ + crate::text::debug_quoted_spec(raw),
        RecordErrorModel::UnknownClip { id } => "unknown clip id "@ + id,
    }
}

impl RecordError {
    /// The error's message.
    pub fn message(&self) -> (m: String)
        ensures
            m@ == record_message(self@),
    {
        match self {
            RecordError::InvalidClipId { raw } => {
                let mut m = owned("invalid clip id ");
                crate::text::push_str(&mut m, crate::text::debug_quoted(raw.as_str()).as_str());
                m
            },
            RecordError::UnknownClip { id } => {
                let mut m = owned("unknown clip id ");
                crate::text::push_str(&mut m, id.as_str());
                m
            },
        }
    }
}

/// ASCII letters and digits, `_` and `-`.
pub open spec fn is_id_char(c: char) -> bool {
    ('a' <= c && c <= 'z') || ('A' <= c && c <= 'Z') || ('0' <= c && c <= '9') || c == '_' || c
        == '-'
}

/// A manifest-shaped clip id (`<scene>__<clip>`): non-empty, id characters only.
pub open spec fn valid_clip_id(s: Seq<char>) -> bool {
    s.len() > 0 && forall|i: int| 0 <= i < s.len() ==> is_id_char(#[trigger] s[i])
}

/// Clip ids come straight off the URL — allow only manifest-shaped names so
/// they can never traverse out of the episode dir.
pub fn sanitize_id(raw: &str) -> (r: Result<String, RecordError>)
    ensures
        if valid_clip_id(raw@) {
            r matches Ok(s) && s@ == raw@
        } else {
            r matches Err(e) && e@ == (RecordErrorModel::InvalidClipId { raw: raw@ })
        },
{
    let cs = chars_of(raw);
    let mut ok = cs.len() > 0;
    let mut i: usize = 0;
    while i < cs.len()
        invariant
            i <= cs@.len(),
            cs@ == raw@,
            ok == (cs@.len() > 0 && forall|k: int| 0 <= k < i ==> is_id_char(#[trigger] cs@[k])),
        decreases cs@.len() - i,
    {
        let c = cs[i];
        let good = ('a' <= c && c <= 'z') || ('A' <= c && c <= 'Z') || ('0' <= c && c <= '9')
            || c == '_' || c == '-';
        ok = ok && good;
        i = i + 1;
    }
    if ok {
        Ok(owned(raw))
    } else {
        Err(RecordError::InvalidClipId { raw: owned(raw) })
    }
}

/// A sanitized clip id names a file inside `audio/clips/`: it holds no path
/// separator and no dot, so `..` and absolute paths cannot be formed.
pub proof fn lemma_clip_ids_stay_inside(id: Seq<char>)
    requires
        valid_clip_id(id),
    ensures
        forall|i: int| 0 <= i < id.len() ==> #[trigger] id[i] != '/' && id[i] != '\\' && id[i] != '.',
{
}

/// `<scene>__<clip>`: the id of a narration clip.
pub fn clip_id(scene: &str, clip: &str) -> (id: String)
    ensures
        id@ == scene@ + seq!['_', '_'] + clip@,
{
    let s = chars_of(scene);
    let c = chars_of(clip);
    let mut id = String::new();
    push_span(&mut id, &s, 0, s.len());
    id.push('_');
    id.push('_');
    push_span(&mut id, &c, 0, c.len());
    assert(s@.subrange(0, s@.len() as int) =~= scene@);
    assert(c@.subrange(0, c@.len() as int) =~= clip@);
    assert(id@ =~= scene@ + seq!['_', '_'] + clip@);
    id
}

/// `audio/clips/<id>.mp3`: where the current audio of a clip lives,
/// relative to the episode root.
pub fn clip_file(id: &str) -> (p: String)
    ensures
        p@ == "audio/clips/"@ + id@ + ".mp3"@,
{
    let mut p = owned("audio/clips/");
    let c = chars_of(id);
    push_span(&mut p, &c, 0, c.len());
    let e = chars_of(".mp3");
    push_span(&mut p, &e, 0, e.len());
    assert(c@.subrange(0, c@.len() as int) =~= id@);
    assert(e@.subrange(0, e@.len() as int) =~= ".mp3"@);
    assert(p@ =~= "audio/clips/"@ + id@ + ".mp3"@);
    p
}

/// `audio/clips/<id>.txt`: the text a clip's audio was synthesized from,
/// kept beside it so that `tts` can tell when the narration changed.
pub fn clip_text_file(id: &str) -> (p: String)
    ensures
        p@ == "audio/clips/"@ + id@ + ".txt"@,
{
    let mut p = owned("audio/clips/");
    crate::text::push_str(&mut p, id);
    crate::text::push_str(&mut p, ".txt");
    p
}

pub open spec fn mp3_ext() -> Seq<char> {
    seq!['.', 'm', 'p', '3']
}

/// The part of `stem` after its last `_` (all of it when there is none).
pub open spec fn last_segment(stem: Seq<char>) -> Seq<char> {
    stem.skip(stem.len() - suffix_run(stem, in_class(CharClass::NonUnderscore)))
}

/// The number of an archived take file: `take_007.mp3` / `replaced_012.mp3`
/// → 7 / 12 (the digits after the last `_` of an `.mp3` name).
pub open spec fn take_number_spec(name: Seq<char>) -> Option<u32> {
    if ends_with(name, mp3_ext()) {
        parse_u32_spec(last_segment(name.take(name.len() - 4)))
    } else {
        None
    }
}

/// See [`take_number_spec`].
pub fn take_number(name: &str) -> (r: Option<u32>)
    ensures
        r == take_number_spec(name@),
{
    let cs = chars_of(name);
    let n = cs.len();
    if n < 4 || !(cs[n - 4] == '.' && cs[n - 3] == 'm' && cs[n - 2] == 'p' && cs[n - 1] == '3') {
        assert(n >= 4 ==> name@.skip(n - 4) =~= seq![cs@[n - 4], cs@[n - 3], cs@[n - 2], cs@[n - 1]]);
        return None;
    }
    assert(name@.skip(n - 4) =~= mp3_ext());
    let stem_end = n - 4;
    let seg = suffix_run_start(&cs, 0, stem_end, CharClass::NonUnderscore);
    let ghost stem = name@.take(n - 4);
    assert(stem =~= cs@.subrange(0, stem_end as int));
    assert(last_segment(stem) =~= cs@.subrange(seg as int, stem_end as int));
    parse_u32(&cs, seg, stem_end)
}

/// The highest take number among the file names, if any has one.
pub open spec fn max_take(names: Seq<Seq<char>>) -> Option<u32>
    decreases names.len(),
{
    if names.len() == 0 {
        None
    } else {
        match (max_take(names.drop_last()), take_number_spec(names.last())) {
            (Some(a), Some(b)) => Some(if a >= b { a } else { b }),
            (Some(a), None) => Some(a),
            (None, b) => b,
        }
    }
}

/// One past the highest take number, or 1 when there is none yet.
pub open spec fn next_take_spec(names: Seq<Seq<char>>) -> int {
    match max_take(names) {
        Some(m) => m + 1,
        None => 1,
    }
}

/// The number the next archived take of a clip gets, given the file names
/// already in its archive directory.
pub fn next_take_number(names: &Vec<String>) -> (n: u32)
    requires
        max_take(strings_view(names@)) != Some(u32::MAX),
    ensures
        n == next_take_spec(strings_view(names@)),
{
    let ghost nv = strings_view(names@);
    let mut best: Option<u32> = None;
    let mut i: usize = 0;
    assert(nv.take(0) =~= Seq::<Seq<char>>::empty());
    while i < names.len()
        invariant
            i <= names@.len(),
            nv == strings_view(names@),
            best == max_take(nv.take(i as int)),
        decreases names@.len() - i,
    {
        let t = take_number(names[i].as_str());
        assert(nv.take(i + 1).drop_last() =~= nv.take(i as int));
        assert(nv.take(i + 1).last() == names@[i as int]@);
        best = match (best, t) {
            (Some(a), Some(b)) => Some(if a >= b { a } else { b }),
            (Some(a), None) => Some(a),
            (None, b) => b,
        };
        i = i + 1;
    }
    assert(nv.take(i as int) =~= nv);
    match best {
        Some(m) => m + 1,
        None => 1,
    }
}

/// `take_NNN.mp3`, the archive name of take `n` (at least three digits).
pub open spec fn take_name_spec(n: u32) -> Seq<char> {
    seq!['t', 'a', 'k', 'e', '_'] + zero_pad(decimal(n as nat), 3) + mp3_ext()
}

/// `replaced_NNN.mp3`, the archive name of audio a kept take displaced.
pub open spec fn replaced_name_spec(n: u32) -> Seq<char> {
    seq!['r', 'e', 'p', 'l', 'a', 'c', 'e', 'd', '_'] + zero_pad(decimal(n as nat), 3) + mp3_ext()
}

fn numbered_mp3(prefix: &str, n: u32) -> (s: String)
    ensures
        s@ == prefix@ + zero_pad(decimal(n as nat), 3) + mp3_ext(),
{
    let mut s = owned(prefix);
    push_padded(&mut s, n as u64, 3);
    s.push('.');
    s.push('m');
    s.push('p');
    s.push('3');
    assert(s@ =~= prefix@ + zero_pad(decimal(n as nat), 3) + mp3_ext());
    s
}

/// The archive file name of take `n`.
pub fn take_file_name(n: u32) -> (s: String)
    ensures
        s@ == take_name_spec(n),
{
    proof {
        reveal_strlit("take_");
    }
    numbered_mp3("take_", n)
}

/// The archive file name for audio displaced by a kept take, numbered `n`.
pub fn replaced_file_name(n: u32) -> (s: String)
    ensures
        s@ == replaced_name_spec(n),
{
    proof {
        reveal_strlit("replaced_");
    }
    numbered_mp3("replaced_", n)
}


proof fn lemma_numbered_name(prefix: Seq<char>, n: u32)
    requires
        prefix.len() > 0,
        prefix.last() == '_',
    ensures
        take_number_spec(prefix + zero_pad(decimal(n as nat), 3) + mp3_ext()) == Some(n),
{
    let z = zero_pad(decimal(n as nat), 3);
    let name = prefix + z + mp3_ext();
    lemma_all_digits_decimal(n as nat);
    lemma_zero_pad_digits(decimal(n as nat), 3);
    assert(name.skip(name.len() - 4) =~= mp3_ext());
    let stem = name.take(name.len() - 4);
    assert(stem =~= prefix + z);
    assert forall|i: int| stem.len() - z.len() <= i < stem.len() implies in_class(
        CharClass::NonUnderscore,
    )(#[trigger] stem[i]) by {
        assert(stem[i] == z[i - prefix.len()]);
        assert(crate::text::is_digit(z[i - prefix.len()]));
    }
    assert(stem[stem.len() - z.len() - 1] == '_');
    lemma_suffix_run(stem, in_class(CharClass::NonUnderscore), z.len() as int);
    assert(last_segment(stem) =~= z);
    assert(crate::text::is_digit(z[0]));
}

/// Every archive name reads back as the number it was made from.
pub proof fn lemma_take_name_number(n: u32)
    ensures
        take_number_spec(take_name_spec(n)) == Some(n),
        take_number_spec(replaced_name_spec(n)) == Some(n),
{
    lemma_numbered_name(seq!['t', 'a', 'k', 'e', '_'], n);
    lemma_numbered_name(seq!['r', 'e', 'p', 'l', 'a', 'c', 'e', 'd', '_'], n);
}

proof fn lemma_max_take_bounds(names: Seq<Seq<char>>, i: int)
    requires
        0 <= i < names.len(),
        take_number_spec(names[i]) is Some,
    ensures
        max_take(names) is Some,
        take_number_spec(names[i])->0 <= max_take(names)->0,
    decreases names.len(),
{
    if i < names.len() - 1 {
        lemma_max_take_bounds(names.drop_last(), i);
    }
}

/// No kept take overwrites an archived one: the next number is above every
/// number in use, so its file names are new; archiving the take under it
/// moves the next number up by exactly one.
pub proof fn lemma_next_take_is_fresh(names: Seq<Seq<char>>)
    requires
        max_take(names) != Some(u32::MAX),
    ensures
        forall|i: int|
            0 <= i < names.len() && (#[trigger] take_number_spec(names[i])) is Some
                ==> take_number_spec(names[i])->0 < next_take_spec(names),
        1 <= next_take_spec(names) <= u32::MAX,
        !names.contains(take_name_spec(next_take_spec(names) as u32)),
        !names.contains(replaced_name_spec(next_take_spec(names) as u32)),
        next_take_spec(names.push(take_name_spec(next_take_spec(names) as u32))) == next_take_spec(
            names,
        ) + 1,
{
    let next = next_take_spec(names) as u32;
    assert forall|i: int|
        0 <= i < names.len() && (#[trigger] take_number_spec(names[i])) is Some implies take_number_spec(
        names[i])->0 < next_take_spec(names) by {
        lemma_max_take_bounds(names, i);
    }
    lemma_take_name_number(next);
    if names.contains(take_name_spec(next)) {
        let i = choose|i: int| 0 <= i < names.len() && names[i] == take_name_spec(next);
        assert(take_number_spec(names[i]) is Some);
    }
    if names.contains(replaced_name_spec(next)) {
        let i = choose|i: int| 0 <= i < names.len() && names[i] == replaced_name_spec(next);
        assert(take_number_spec(names[i]) is Some);
    }
    assert(names.push(take_name_spec(next)).drop_last() =~= names);
}


/// The request methods the recorder distinguishes.
#[derive(Clone, Copy, Debug, PartialEq, Eq, Structural)]
pub enum HttpMethod {
    Get,
    Post,
    Other,
}

/// What the recorder serves for a request.
#[derive(Debug, PartialEq, Eq)]
pub enum Route {
    /// `GET /`: the teleprompter page.
    Index,
    /// `GET /api/episode`: the clip list.
    Episode,
    /// `GET /audio/<id>`: the current take of a clip.
    Audio { id: String },
    /// `POST /api/take/<id>`: a new take for a clip.
    Take { id: String },
    /// Anything else: 404.
    NotFound,
}

pub enum RouteModel {
    Index,
    Episode,
    Audio { id: Seq<char> },
    Take { id: Seq<char> },
    NotFound,
}

impl View for Route {
    type V = RouteModel;

    open spec fn view(&self) -> RouteModel {
        match self {
            Route::Index => RouteModel::Index,
            Route::Episode => RouteModel::Episode,
            Route::Audio { id } => RouteModel::Audio { id: id@ },
            Route::Take { id } => RouteModel::Take { id: id@ },
            Route::NotFound => RouteModel::NotFound,
        }
    }
}

/// The clip id that follows `prefix` in a URL, checked.
pub open spec fn id_route(rest: Seq<char>, audio: bool) -> Result<RouteModel, RecordErrorModel> {
    if valid_clip_id(rest) {
        if audio {
            Ok(RouteModel::Audio { id: rest })
        } else {
            Ok(RouteModel::Take { id: rest })
        }
    } else {
        Err(RecordErrorModel::InvalidClipId { raw: rest })
    }
}

/// Route a request: the page, the episode JSON, a clip's audio, a take
/// upload, or 404; clip ids in URLs must be valid.
pub open spec fn route_spec(method: HttpMethod, url: Seq<char>) -> Result<RouteModel, RecordErrorModel> {
    if method == HttpMethod::Get && url == "/"@ {
        Ok(RouteModel::Index)
    } else if method == HttpMethod::Get && url == "/api/episode"@ {
        Ok(RouteModel::Episode)
    } else if method == HttpMethod::Get && starts_with(url, "/audio/"@) {
        id_route(url.skip("/audio/"@.len() as int), true)
    } else if method == HttpMethod::Post && starts_with(url, "/api/take/"@) {
        id_route(url.skip("/api/take/"@.len() as int), false)
    } else {
        Ok(RouteModel::NotFound)
    }
}

pub open spec fn route_result_view(r: Result<Route, RecordError>) -> Result<RouteModel, RecordErrorModel> {
    match r {
        Ok(x) => Ok(x@),
        Err(e) => Err(e@),
    }
}

fn id_after(cs: &Vec<char>, start: usize, audio: bool) -> (r: Result<Route, RecordError>)
    requires
        start <= cs@.len(),
    ensures
        route_result_view(r) == id_route(cs@.skip(start as int), audio),
{
    let s = crate::text::string_of(cs, start, cs.len());
    assert(s@ =~= cs@.skip(start as int));
    let id = sanitize_id(s.as_str())?;
    if audio {
        Ok(Route::Audio { id })
    } else {
        Ok(Route::Take { id })
    }
}

/// Decide what a request gets (see [`route_spec`]).
pub fn route(method: HttpMethod, url: &str) -> (r: Result<Route, RecordError>)
    ensures
        route_result_view(r) == route_spec(method, url@),
{
    let cs = chars_of(url);
    let n = cs.len();
    assert(cs@.subrange(0, n as int) =~= url@);
    if method == HttpMethod::Get && text_eq(url, "/") {
        return Ok(Route::Index);
    }
    if method == HttpMethod::Get && text_eq(url, "/api/episode") {
        return Ok(Route::Episode);
    }
    let audio = chars_of("/audio/");
    if method == HttpMethod::Get && span_starts_with(&cs, 0, n, &audio) {
        return id_after(&cs, audio.len(), true);
    }
    let take = chars_of("/api/take/");
    if method == HttpMethod::Post && span_starts_with(&cs, 0, n, &take) {
        return id_after(&cs, take.len(), false);
    }
    Ok(Route::NotFound)
}

/// Every clip id that reaches the file system came through `route` and is
/// a sanitized id: no path separator and no dot, so it cannot leave
/// `audio/clips/` or `audio/takes/`.
pub proof fn lemma_routed_ids_are_safe(method: HttpMethod, url: Seq<char>)
    ensures
        route_spec(method, url) matches Ok(RouteModel::Audio { id }) ==> valid_clip_id(id)
            && forall|i: int| 0 <= i < id.len() ==> #[trigger] id[i] != '/' && id[i] != '\\'
            && id[i] != '.',
        route_spec(method, url) matches Ok(RouteModel::Take { id }) ==> valid_clip_id(id)
            && forall|i: int| 0 <= i < id.len() ==> #[trigger] id[i] != '/' && id[i] != '\\'
            && id[i] != '.',
{
}

/// `/api/take/<id>`: where the recorder page uploads a take of a clip.
pub fn take_upload_url(id: &str) -> (u: String)
    ensures
        u@ == "/api/take/"@ + id@,
{
    let mut u = owned("/api/take/");
    let c = chars_of(id);
    push_span(&mut u, &c, 0, c.len());
    assert(c@.subrange(0, c@.len() as int) =~= id@);
    u
}

/// Every upload URL the page builds for a valid clip id is routed by the
/// server as a take of exactly that clip.
pub proof fn lemma_upload_url_routes_to_take(id: Seq<char>)
    requires
        valid_clip_id(id),
    ensures
        route_spec(HttpMethod::Post, "/api/take/"@ + id) == Ok::<RouteModel, RecordErrorModel>(
            RouteModel::Take { id },
        ),
{
    let url = "/api/take/"@ + id;
    assert(url.take("/api/take/"@.len() as int) =~= "/api/take/"@);
    assert(url.skip("/api/take/"@.len() as int) =~= id);
}

/// The (scene, clip) index pair of the first clip whose id is `id`.
pub open spec fn clip_id_at(scenes: Seq<SceneModel>, i: int, j: int) -> Seq<char> {
    scenes[i].name + seq!['_', '_'] + scenes[i].chunks[j].name
}

/// Find the clip a take is for: the first (scene, clip) pair, in script
/// order, whose `<scene>__<clip>` id is `id`.
pub fn find_clip(scenes: &Vec<Scene>, id: &str) -> (r: Result<(usize, usize), RecordError>)
    ensures
        match r {
            Ok((i, j)) => {
                let sv = scenes_view(scenes@);
                &&& i < sv.len() && j < sv[i as int].chunks.len()
                &&& clip_id_at(sv, i as int, j as int) == id@
                &&& forall|a: int, b: int|
                    0 <= a < sv.len() && 0 <= b < sv[a].chunks.len() && (a < i || (a == i && b
                        < j)) ==> #[trigger] clip_id_at(sv, a, b) != id@
            },
            Err(e) => {
                let sv = scenes_view(scenes@);
                &&& e@ == (RecordErrorModel::UnknownClip { id: id@ })
                &&& forall|a: int, b: int|
                    0 <= a < sv.len() && 0 <= b < sv[a].chunks.len()
                        ==> #[trigger] clip_id_at(sv, a, b) != id@
            },
        },
{
    let ghost sv = scenes_view(scenes@);
    let mut i: usize = 0;
    while i < scenes.len()
        invariant
            i <= scenes@.len(),
            sv == scenes_view(scenes@),
            forall|a: int, b: int|
                0 <= a < i && 0 <= b < sv[a].chunks.len() ==> #[trigger] clip_id_at(sv, a, b)
                    != id@,
        decreases scenes@.len() - i,
    {
        let sc = &scenes[i];
        assert(sv[i as int] == sc@);
        let mut j: usize = 0;
        while j < sc.chunks.len()
            invariant
                i < scenes@.len(),
                sc == scenes@[i as int],
                j <= sc.chunks@.len(),
                sv == scenes_view(scenes@),
                sv[i as int] == sc@,
                forall|a: int, b: int|
                    0 <= a < i && 0 <= b < sv[a].chunks.len() ==> #[trigger] clip_id_at(sv, a, b)
                        != id@,
                forall|b: int| 0 <= b < j ==> #[trigger] clip_id_at(sv, i as int, b) != id@,
            decreases sc.chunks@.len() - j,
        {
            assert(chunks_view(sc.chunks@)[j as int] == sc.chunks@[j as int]@);
            let cid = clip_id(sc.name.as_str(), sc.chunks[j].name.as_str());
            if text_eq(cid.as_str(), id) {
                return Ok((i, j));
            }
            j = j + 1;
        }
        i = i + 1;
    }
    Err(RecordError::UnknownClip { id: owned(id) })
}

/// The extension an uploaded take is stored under before transcoding:
/// `mp4` when the browser sent an mp4 mime type (Safari), else `webm`.
pub fn upload_extension(mime: &str) -> (e: &'static str)
    ensures
        e@ == (if contains_seq(mime@, "mp4"@) {
            "mp4"@
        } else {
            "webm"@
        }),
{
    let cs = chars_of(mime);
    let pat = chars_of("mp4");
    assert(cs@.subrange(0, cs@.len() as int) =~= mime@);
    if span_contains(&cs, 0, cs.len(), &pat) {
        "mp4"
    } else {
        "webm"
    }
}

} // verus!
