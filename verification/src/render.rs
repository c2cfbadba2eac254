//! Scene rendering decisions: which scenes a render pass covers, the frame
//! files it writes, and the data a web template receives — the scene's data
//! plus its code text, its language, its inlined image assets and the
//! scene's name, duration and frame size.

use vstd::prelude::*;
use crate::genai::{base64_standard, encode_b64, encoded_len_fits};
use crate::script::{
    entries_map, keys_distinct, lemma_entries_absent, lemma_entries_get, owned, text_eq,
    DataValue, DataValueModel, Scene, SceneData, SceneModel,
};
use crate::text::{chars_of, decimal, push_decimal, push_padded, push_str, zero_pad};

verus! {

broadcast use vstd::string::group_string_axioms;

/// The scenes a render pass covers (`only` restricts it to one name) and
/// whether any of them needs the browser, i.e. is not a `video-clip` scene.
pub struct RenderPlan {
    pub scenes: Vec<usize>,
    pub needs_browser: bool,
}

pub open spec fn selected(s: SceneModel, only: Option<Seq<char>>) -> bool {
    match only {
        Some(o) => s.name == o,
        None => true,
    }
}

/// The indices of the selected scenes, in order.
pub open spec fn selected_indices(scenes: Seq<SceneModel>, only: Option<Seq<char>>) -> Seq<usize>
    decreases scenes.len(),
{
    if scenes.len() == 0 {
        seq![]
    } else if selected(scenes.last(), only) {
        selected_indices(scenes.drop_last(), only).push((scenes.len() - 1) as usize)
    } else {
        selected_indices(scenes.drop_last(), only)
    }
}

pub fn render_plan(scenes: &Vec<Scene>, only: Option<&str>) -> (p: RenderPlan)
    ensures
        p.scenes@ == selected_indices(
            scenes@.map_values(|s: Scene| s@),
            match only {
                Some(o) => Some(o@),
                None => None,
            },
        ),
        p.needs_browser == exists|i: int|
            0 <= i < scenes@.len() && selected(
                #[trigger] scenes@[i]@,
                match only {
                    Some(o) => Some(o@),
                    None => None,
                },
            ) && scenes@[i]@.template != "video-clip"@,
{
    let ghost o = match only {
        Some(o) => Some(o@),
        None => None,
    };
    let ghost sv = scenes@.map_values(|s: Scene| s@);
    let mut out: Vec<usize> = Vec::new();
    let mut needs = false;
    let mut i: usize = 0;
    assert(sv.take(0) =~= Seq::<SceneModel>::empty());
    while i < scenes.len()
        invariant
            i <= scenes@.len(),
            sv == scenes@.map_values(|s: Scene| s@),
            o == match only {
                Some(o) => Some(o@),
                None => None,
            },
            out@ == selected_indices(sv.take(i as int), o),
            needs == exists|j: int|
                0 <= j < i && selected(#[trigger] scenes@[j]@, o) && scenes@[j]@.template
                    != "video-clip"@,
        decreases scenes@.len() - i,
    {
        assert(sv.take(i + 1).drop_last() =~= sv.take(i as int));
        assert(sv.take(i + 1).last() == scenes@[i as int]@);
        let pick = match only {
            Some(name) => text_eq(scenes[i].name.as_str(), name),
            None => true,
        };
        if pick {
            out.push(i);
            if !scenes[i].is_video_clip() {
                needs = true;
            }
        }
        i = i + 1;
    }
    assert(sv.take(i as int) =~= sv);
    RenderPlan { scenes: out, needs_browser: needs }
}

/// `f_NNNNN.png`: the screenshot of frame `i` (zero-padded to five digits).
pub fn frame_file_name(i: u64) -> (r: String)
    ensures
        r@ == "f_"@ + zero_pad(decimal(i as nat), 5) + ".png"@,
{
    let mut r = owned("f_");
    push_padded(&mut r, i, 5);
    push_str(&mut r, ".png");
    r
}

/// Whether frame `i` of `total` reports progress: every thirtieth frame
/// and the last.
pub fn progress_due(i: usize, total: usize) -> (b: bool)
    ensures
        b == (i % 30 == 0 || i + 1 == total),
{
    i % 30 == 0 || (i < usize::MAX && i + 1 == total)
}

/// The template language a code file's extension names.
pub open spec fn lang_for(ext: Seq<char>) -> Seq<char> {
    if ext == "rs"@ {
        "rust"@
    } else if ext == "py"@ {
        "python"@
    } else if ext == "ts"@ {
        "typescript"@
    } else if ext == "js"@ {
        "javascript"@
    } else {
        ext
    }
}

pub fn lang_for_extension(ext: &str) -> (r: String)
    ensures
        r@ == lang_for(ext@),
{
    if text_eq(ext, "rs") {
        owned("rust")
    } else if text_eq(ext, "py") {
        owned("python")
    } else if text_eq(ext, "ts") {
        owned("typescript")
    } else if text_eq(ext, "js") {
        owned("javascript")
    } else {
        owned(ext)
    }
}

/// A scene's data with its code file read in: `codeText` holds the file's
/// text and, unless the scene names a `lang`, the language follows from the
/// file's extension (when it has one).
pub open spec fn with_code(
    d: Map<Seq<char>, DataValueModel>,
    code: Option<Seq<char>>,
    ext: Option<Seq<char>>,
) -> Map<Seq<char>, DataValueModel> {
    match code {
        None => d,
        Some(t) => {
            let d1 = d.insert("codeText"@, DataValueModel::Text(t));
            if d1.contains_key("lang"@) {
                d1
            } else {
                match ext {
                    Some(e) => d1.insert("lang"@, DataValueModel::Text(lang_for(e))),
                    None => d1,
                }
            }
        },
    }
}

fn copy_value(v: &DataValue) -> (r: DataValue)
    ensures
        r@ == v@,
{
    match v {
        DataValue::Number(s) => DataValue::Number(owned(s.as_str())),
        DataValue::Bool(b) => DataValue::Bool(*b),
        DataValue::Text(s) => DataValue::Text(owned(s.as_str())),
    }
}

/// The data a web template starts from: the scene's data, with the text of
/// its code file (`code_text`, read from the path its `code` value names)
/// and that file's extension.
pub fn template_data(scene: &Scene, code_text: Option<&str>, code_ext: Option<&str>) -> (d:
    SceneData)
    ensures
        d@ == with_code(
            scene.data@,
            match code_text {
                Some(t) => Some(t@),
                None => None,
            },
            match code_ext {
                Some(e) => Some(e@),
                None => None,
            },
        ),
{
    let es = scene.data.entries();
    let mut d = SceneData::new();
    let mut i: usize = 0;
    assert(es@.take(0) =~= Seq::<(String, DataValue)>::empty());
    while i < es.len()
        invariant
            i <= es@.len(),
            d@ == entries_map(es@.take(i as int)),
        decreases es@.len() - i,
    {
        assert(es@.take(i + 1).drop_last() =~= es@.take(i as int));
        d.insert(owned(es[i].0.as_str()), copy_value(&es[i].1));
        i = i + 1;
    }
    assert(es@.take(i as int) =~= es@);
    match code_text {
        Some(t) => {
            d.insert(owned("codeText"), DataValue::Text(owned(t)));
            if d.get("lang").is_none() {
                match code_ext {
                    Some(e) => d.insert(owned("lang"), DataValue::Text(lang_for_extension(e))),
                    None => {},
                }
            }
        },
        None => {},
    }
    d
}

/// A data value that may name an asset file: text with a `/` in it.
pub open spec fn is_asset_ref(v: DataValueModel) -> bool {
    v matches DataValueModel::Text(t) && t.contains('/')
}

fn contains_slash(s: &str) -> (b: bool)
    ensures
        b == s@.contains('/'),
{
    let cs = chars_of(s);
    let mut i: usize = 0;
    while i < cs.len()
        invariant
            i <= cs@.len(),
            cs@ == s@,
            forall|j: int| 0 <= j < i ==> cs@[j] != '/',
        decreases cs@.len() - i,
    {
        if cs[i] == '/' {
            return true;
        }
        i = i + 1;
    }
    false
}

/// The keys whose values may name asset files, with those values: each
/// such key once.
pub fn asset_refs(data: &SceneData) -> (r: Vec<(String, String)>)
    ensures
        forall|i: int|
            0 <= i < r@.len() ==> data@.contains_key((#[trigger] r@[i]).0@) && data@[r@[i].0@]
                == DataValueModel::Text(r@[i].1@) && r@[i].1@.contains('/'),
        forall|k: Seq<char>|
            data@.contains_key(k) && is_asset_ref(#[trigger] data@[k]) ==> exists|i: int|
                0 <= i < r@.len() && (#[trigger] r@[i]).0@ == k,
        forall|i: int, j: int| 0 <= i < j < r@.len() ==> (#[trigger] r@[i]).0@ != (#[trigger] r@[j]).0@,
{
    let es = data.entries();
    let mut out: Vec<(String, String)> = Vec::new();
    let mut i: usize = 0;
    while i < es.len()
        invariant
            i <= es@.len(),
            keys_distinct(es@),
            entries_map(es@) == data@,
            forall|a: int|
                0 <= a < out@.len() ==> exists|j: int|
                    0 <= j < i && (#[trigger] out@[a]).0@ == es@[j].0@ && es@[j].1@
                        == DataValueModel::Text(out@[a].1@) && out@[a].1@.contains('/'),
            forall|j: int|
                0 <= j < i && is_asset_ref(#[trigger] es@[j].1@) ==> exists|a: int|
                    0 <= a < out@.len() && (#[trigger] out@[a]).0@ == es@[j].0@,
            forall|a: int, b: int|
                0 <= a < b < out@.len() ==> (#[trigger] out@[a]).0@ != (#[trigger] out@[b]).0@,
            forall|a: int|
                0 <= a < out@.len() ==> exists|j: int|
                    0 <= j < i && (#[trigger] out@[a]).0@ == #[trigger] es@[j].0@,
        decreases es@.len() - i,
    {
        match &es[i].1 {
            DataValue::Text(v) => {
                if contains_slash(v.as_str()) {
                    let ghost before = out@;
                    out.push((owned(es[i].0.as_str()), owned(v.as_str())));
                    assert forall|a: int| 0 <= a < out@.len() - 1 implies (#[trigger] out@[a]).0@
                        != es@[i as int].0@ by {
                        assert(out@[a] == before[a]);
                    }
                    assert forall|a: int, b: int| 0 <= a < b < out@.len() implies (
                    #[trigger] out@[a]).0@ != (#[trigger] out@[b]).0@ by {
                        assert(out@[a] == before[a]);
                        if b < out@.len() - 1 {
                            assert(out@[b] == before[b]);
                        }
                    }
                    assert forall|j: int|
                        0 <= j < i + 1 && is_asset_ref(#[trigger] es@[j].1@) implies exists|a: int|
                        0 <= a < out@.len() && (#[trigger] out@[a]).0@ == es@[j].0@ by {
                        if j == i {
                            assert(out@[out@.len() - 1].0@ == es@[j].0@);
                        } else {
                            let a = choose|a: int|
                                0 <= a < before.len() && (#[trigger] before[a]).0@ == es@[j].0@;
                            assert(out@[a] == before[a]);
                        }
                    }
                }
            },
            _ => {},
        }
        i = i + 1;
    }
    assert forall|a: int| 0 <= a < out@.len() implies data@.contains_key(
        (#[trigger] out@[a]).0@,
    ) && data@[out@[a].0@] == DataValueModel::Text(out@[a].1@) && out@[a].1@.contains('/') by {
        let j = choose|j: int|
            0 <= j < es@.len() && out@[a].0@ == es@[j].0@ && es@[j].1@ == DataValueModel::Text(
                out@[a].1@,
            ) && out@[a].1@.contains('/');
        lemma_entries_get(es@, j);
    }
    assert forall|k: Seq<char>| data@.contains_key(k) && is_asset_ref(
        #[trigger] data@[k],
    ) implies exists|a: int| 0 <= a < out@.len() && (#[trigger] out@[a]).0@ == k by {
        if forall|j: int| 0 <= j < es@.len() ==> (#[trigger] es@[j]).0@ != k {
            lemma_entries_absent(es@, k);
        }
        let j = choose|j: int| 0 <= j < es@.len() && (#[trigger] es@[j]).0@ == k;
        lemma_entries_get(es@, j);
    }
    out
}

/// The MIME type of an image asset, by its file's extension.
pub open spec fn asset_mime_spec(ext: Option<Seq<char>>) -> Option<Seq<char>> {
    match ext {
        Some(e) => if e == "png"@ {
            Some("image/png"@)
        } else if e == "jpg"@ || e == "jpeg"@ {
            Some("image/jpeg"@)
        } else if e == "webp"@ {
            Some("image/webp"@)
        } else if e == "gif"@ {
            Some("image/gif"@)
        } else if e == "svg"@ {
            Some("image/svg+xml"@)
        } else {
            None
        },
        None => None,
    }
}

/// See [`asset_mime_spec`]; other assets are linked, not inlined.
pub fn asset_mime(ext: Option<&str>) -> (r: Option<&'static str>)
    ensures
        match r {
            Some(m) => asset_mime_spec(
                match ext {
                    Some(e) => Some(e@),
                    None => None,
                },
            ) == Some(m@),
            None => asset_mime_spec(
                match ext {
                    Some(e) => Some(e@),
                    None => None,
                },
            ) is None,
        },
{
    match ext {
        Some(e) => if text_eq(e, "png") {
            Some("image/png")
        } else if text_eq(e, "jpg") || text_eq(e, "jpeg") {
            Some("image/jpeg")
        } else if text_eq(e, "webp") {
            Some("image/webp")
        } else if text_eq(e, "gif") {
            Some("image/gif")
        } else if text_eq(e, "svg") {
            Some("image/svg+xml")
        } else {
            None
        },
        None => None,
    }
}

/// An image asset inlined as a `data:` URL.
pub fn inline_asset(mime: &str, bytes: &[u8]) -> (r: String)
    requires
        encoded_len_fits(bytes@.len()),
    ensures
        r@ == "data:"@ + mime@ + ";base64,"@ + base64_standard(bytes@),
{
    let mut r = owned("data:");
    push_str(&mut r, mime);
    push_str(&mut r, ";base64,");
    let b = encode_b64(bytes);
    push_str(&mut r, b.as_str());
    r
}

/// A non-image asset, linked by its absolute path.
pub fn linked_asset(absolute: &str) -> (r: String)
    ensures
        r@ == "file://"@ + absolute@,
{
    let mut r = owned("file://");
    push_str(&mut r, absolute);
    r
}

/// The data complete: the scene's name and duration and the frame size.
pub open spec fn finished(
    d: Map<Seq<char>, DataValueModel>,
    name: Seq<char>,
    duration: Seq<char>,
    width: u32,
    height: u32,
) -> Map<Seq<char>, DataValueModel> {
    d.insert("sceneName"@, DataValueModel::Text(name)).insert(
        "duration"@,
        DataValueModel::Number(duration),
    ).insert("width"@, DataValueModel::Number(decimal(width as nat))).insert(
        "height"@,
        DataValueModel::Number(decimal(height as nat)),
    )
}

pub fn finish_template_data(data: &mut SceneData, scene: &Scene, width: u32, height: u32)
    ensures
        final(data)@ == finished(old(data)@, scene.name@, scene.duration@, width, height),
{
    data.insert(owned("sceneName"), DataValue::Text(owned(scene.name.as_str())));
    data.insert(owned("duration"), DataValue::Number(owned(scene.duration.as_str())));
    let mut w = String::new();
    push_decimal(&mut w, width as u64);
    data.insert(owned("width"), DataValue::Number(w));
    let mut h = String::new();
    push_decimal(&mut h, height as u64);
    data.insert(owned("height"), DataValue::Number(h));
}

} // verus!
